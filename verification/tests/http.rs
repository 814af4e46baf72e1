use librarian::http::{request_url, trim_trailing_slashes, ClientError};

#[test]
fn connect_error_message_names_target_and_cause() {
    let s = ClientError::Connect {
        url: "http://turbo:6700".into(),
        cause: "connection refused".into(),
    }
    .message();
    assert!(s.contains("http://turbo:6700"), "should name what we tried to reach");
    assert!(s.contains("connection refused"), "should state the cause");
}

#[test]
fn timeout_message_reports_url_and_seconds() {
    let s = ClientError::Timeout { url: "http://turbo:6700".into(), secs: 30 }.message();
    assert!(s.contains("http://turbo:6700"));
    assert!(s.contains("30"));
}

#[test]
fn daemon_error_message_includes_status_and_code() {
    let s = ClientError::Daemon {
        status: 401,
        code: "unauthorized".into(),
        message: "missing key".into(),
    }
    .message();
    assert!(s.contains("401"));
    assert!(s.contains("unauthorized"));
}

#[test]
fn full_messages() {
    assert_eq!(
        ClientError::Daemon { status: 404, code: "not_found".into(), message: String::new() }
            .message(),
        "daemon returned 404 [not_found]"
    );
    assert_eq!(
        ClientError::Daemon { status: 500, code: "x".into(), message: "boom".into() }.message(),
        "daemon returned 500 [x]: boom"
    );
    assert_eq!(
        ClientError::Timeout { url: "u".into(), secs: 7 }.message(),
        "no response from the daemon at u within 7s\n  cause: request timed out\n  fix:   is the host reachable? raise --timeout, or check the daemon"
    );
    assert_eq!(
        ClientError::Connect { url: "u".into(), cause: "c".into() }.message(),
        "cannot reach the daemon at u\n  cause: c\n  fix:   is it running? set LIBRARIAN_DAEMON or pass --daemon <url>"
    );
    assert_eq!(
        ClientError::BadResponse { cause: "eof".into() }.message(),
        "unexpected response from the daemon\n  cause: eof\n  fix:   the CLI and daemon versions may differ"
    );
}

#[test]
fn envelope_defaults() {
    match ClientError::from_envelope(404, None, None) {
        ClientError::Daemon { status, code, message } => {
            assert_eq!(status, 404);
            assert_eq!(code, "error");
            assert_eq!(message, "");
        }
        other => panic!("expected Daemon error, got {other:?}"),
    }
    match ClientError::from_envelope(404, Some("not_found"), Some("no such collection")) {
        ClientError::Daemon { code, message, .. } => {
            assert_eq!(code, "not_found");
            assert_eq!(message, "no such collection");
        }
        other => panic!("expected Daemon error, got {other:?}"),
    }
}

#[test]
fn base_urls_lose_trailing_slashes() {
    assert_eq!(trim_trailing_slashes("http://localhost:6700//"), "http://localhost:6700");
    assert_eq!(request_url("http://localhost:6700/", "/v1/search"), "http://localhost:6700/v1/search");
}
