use poker_banting_server::config::{resolve_port, Config, Vars};

#[test]
fn test_resolve_port_default_when_no_env() {
    assert_eq!(resolve_port(None, None), 8080);
}

#[test]
fn test_resolve_port_cloud_run_port() {
    assert_eq!(resolve_port(None, Some("8080")), 8080);
    assert_eq!(resolve_port(None, Some("12345")), 12345);
}

#[test]
fn test_resolve_port_server_port_wins_over_port() {
    assert_eq!(resolve_port(Some("9000"), Some("12345")), 9000);
}

#[test]
fn test_resolve_port_invalid_values_fall_back() {
    assert_eq!(resolve_port(Some("not-a-number"), Some("8080")), 8080);
    assert_eq!(resolve_port(Some("not-a-number"), None), 8080);
    assert_eq!(resolve_port(None, Some("abc")), 8080);
}

#[test]
fn test_config_defaults() {
    let config = Config::new(&Vars::default());
    assert_eq!(config.host, "0.0.0.0");
    assert_eq!(config.port, 8080);
    assert_eq!(config.room_code_length, 6);
    assert_eq!(config.room_ttl_seconds, 1800);
    assert_eq!(config.max_players, 4);
    assert_eq!(config.disconnect_timeout_sec, 15);
    assert_eq!(config.bot_turn_delay_ms, 2500);
    assert_eq!(config.room_orphan_timeout_secs, 30);
}
