use fcp::config::{parse_port, port_or_default, FcpConfig};

#[test]
fn port_text_is_parsed() {
    assert_eq!(parse_port("12345"), Some(12345));
    assert_eq!(parse_port("9481"), Some(9481));
    assert_eq!(parse_port("0"), Some(0));
    assert_eq!(parse_port("+80"), Some(80));
    assert_eq!(parse_port("65535"), Some(65535));
    assert_eq!(parse_port("0065535"), Some(65535));
}

#[test]
fn bad_port_text_is_refused() {
    assert_eq!(parse_port("65536"), None);
    assert_eq!(parse_port("99999999999"), None);
    assert_eq!(parse_port(""), None);
    assert_eq!(parse_port("+"), None);
    assert_eq!(parse_port("-1"), None);
    assert_eq!(parse_port("12a"), None);
    assert_eq!(parse_port(" 1"), None);
}

#[test]
fn port_text_falls_back_to_default() {
    assert_eq!(port_or_default("12345"), 12345);
    assert_eq!(port_or_default("port"), 9481);
}

#[test]
fn empty_config_gives_defaults() {
    let config = FcpConfig::create(None, None);
    assert_eq!(config.hostname_or_default(), "localhost");
    assert_eq!(config.port_or_default(), 9481);
}

#[test]
fn config_settings_win_over_defaults() {
    let config = FcpConfig::create(Some("node.test".to_string()), Some(1234));
    assert_eq!(config.hostname_or_default(), "node.test");
    assert_eq!(config.port_or_default(), 1234);
    assert_eq!(config.fcp_hostname, Some("node.test".to_string()));
    assert_eq!(config.fcp_port, Some(1234));
}
