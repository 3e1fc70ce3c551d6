use kronox::config::{parse_u16, Config, LogLevel, DEFAULT_PORT};

#[test]
fn port_defaults_when_missing_or_invalid() {
    assert_eq!(Config::from_values(None, None, None).port, 7077);
    assert_eq!(DEFAULT_PORT, 7077);
    assert_eq!(Config::from_values(Some("8080"), None, None).port, 8080);
    assert_eq!(Config::from_values(Some("80a"), None, None).port, 7077);
    assert_eq!(Config::from_values(Some("65536"), None, None).port, 7077);
    assert_eq!(Config::from_values(Some(" 80"), None, None).port, 7077);
}

#[test]
fn reads_ports_as_u16_does() {
    for text in ["0", "+1", "0065535", "65535", "65536", "", "+", "-1", "1 ", "99999999999", "12x"] {
        assert_eq!(parse_u16(text), text.parse::<u16>().ok(), "{text}");
    }
}

#[test]
fn database_url_loses_trailing_slashes() {
    let config = Config::from_values(None, Some("postgres://db/kron//"), None);
    assert_eq!(config.database_url.as_deref(), Some("postgres://db/kron"));
    assert_eq!(Config::from_values(None, None, None).database_url, None);
    assert_eq!(Config::from_values(None, Some("///"), None).database_url.as_deref(), Some(""));
}

#[test]
fn log_level_names_ignore_case_and_default_to_debug() {
    let level = |v: Option<&str>| Config::from_values(None, None, v).log_level;
    assert_eq!(level(None), LogLevel::Debug);
    assert_eq!(level(Some("info")), LogLevel::Info);
    assert_eq!(level(Some("WARN")), LogLevel::Warn);
    assert_eq!(level(Some("Off")), LogLevel::Off);
    assert_eq!(level(Some("error")), LogLevel::Error);
    assert_eq!(level(Some("trace")), LogLevel::Trace);
    assert_eq!(level(Some("loud")), LogLevel::Debug);
    assert_eq!(level(Some(" info")), LogLevel::Debug);
}
