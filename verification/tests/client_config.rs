use librarian::client_config::ClientConfig;
use librarian::http::DEFAULT_TIMEOUT_SECS;

fn cfg(daemon: Option<&str>) -> ClientConfig {
    ClientConfig {
        daemon: daemon.map(str::to_string),
        timeout: None,
        limit: None,
    }
}

#[test]
fn flag_beats_config() {
    // An explicit flag wins and short-circuits before the environment value.
    assert_eq!(
        cfg(Some("http://from-config:6700"))
            .resolve_daemon(Some("http://from-flag:6700"), Some("http://from-env:6700")),
        "http://from-flag:6700"
    );
}

#[test]
fn timeout_and_limit_fall_back() {
    assert_eq!(cfg(None).resolve_timeout(None), DEFAULT_TIMEOUT_SECS);
    assert_eq!(cfg(None).resolve_timeout(Some(7)), 7);
    assert_eq!(cfg(None).resolve_limit(None, 5), 5);
    assert_eq!(cfg(None).resolve_limit(Some(12), 5), 12);
}

#[test]
fn daemon_precedence_env_then_config_then_default() {
    let c = cfg(Some("http://from-config:6700"));
    assert_eq!(c.resolve_daemon(None, Some("http://from-env:6700")), "http://from-env:6700");
    // An empty environment value is ignored.
    assert_eq!(c.resolve_daemon(None, Some("")), "http://from-config:6700");
    assert_eq!(c.resolve_daemon(None, None), "http://from-config:6700");
    assert_eq!(cfg(None).resolve_daemon(None, None), "http://localhost:6700");
}

#[test]
fn config_values_beat_defaults() {
    let c = ClientConfig { daemon: None, timeout: Some(9), limit: Some(3) };
    assert_eq!(c.resolve_timeout(None), 9);
    assert_eq!(c.resolve_timeout(Some(1)), 1);
    assert_eq!(c.resolve_limit(None, 5), 3);
    let d = ClientConfig::default();
    assert!(d.daemon.is_none() && d.timeout.is_none() && d.limit.is_none());
}

#[test]
fn config_file_prefers_xdg_then_home() {
    assert_eq!(
        librarian::client_config::config_file_path(Some("/x"), Some("/home/u")).as_deref(),
        Some("/x/librarian/config.toml")
    );
    assert_eq!(
        librarian::client_config::config_file_path(None, Some("/home/u")).as_deref(),
        Some("/home/u/.config/librarian/config.toml")
    );
    assert_eq!(librarian::client_config::config_file_path(None, None), None);
}
