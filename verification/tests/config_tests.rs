use ghostline::config::{sanitize_run_name, Config};
use ghostline::record::{headers_to_forward, headers_to_relay};

#[test]
fn test_config_default() {
    let cfg = Config::default();
    assert_eq!(cfg.proxy.port, 9000);
    assert_eq!(cfg.viewer.port, 5173);
    assert!(cfg.recording.scrub);
}

#[test]
fn config_default_strings() {
    let cfg = Config::default();
    assert_eq!(cfg.proxy.target, "https://api.anthropic.com");
    assert_eq!(cfg.recording.output_dir, "~/.ghostline/runs");
    assert!(cfg.auth.claude_token.is_none());
    assert!(!cfg.is_configured());
    assert!(cfg.viewer.auto_open_browser);
    assert!(cfg.display.colors);
}

#[test]
fn config_path_joins() {
    assert_eq!(
        Config::config_path("/home/me/.ghostline"),
        "/home/me/.ghostline/config.toml"
    );
}

#[test]
fn load_or_default_prefers_loaded() {
    let mut cfg = Config::default();
    cfg.proxy.port = 1234;
    let loaded = Config::load_or_default(Some(cfg));
    assert_eq!(loaded.proxy.port, 1234);

    let fallback = Config::load_or_default(None);
    assert_eq!(fallback.proxy.port, 9000);
}

#[test]
fn sanitize_run_name_accepts_plain_names() {
    assert_eq!(
        sanitize_run_name("20240101-120000-abc.ghostline"),
        Some("20240101-120000-abc.ghostline")
    );
}

#[test]
fn sanitize_run_name_rejects_bad_names() {
    assert_eq!(sanitize_run_name("notes.txt"), None);
    assert_eq!(sanitize_run_name("../escape.ghostline"), None);
    assert_eq!(sanitize_run_name("a/b.ghostline"), None);
    assert_eq!(sanitize_run_name("a\\b.ghostline"), None);
    assert_eq!(sanitize_run_name(".hidden.ghostline"), None);
    assert_eq!(sanitize_run_name("x..y.ghostline"), None);
    assert_eq!(sanitize_run_name(""), None);
}

#[test]
fn forward_headers_strip_hop_by_hop() {
    let headers = vec![
        ("host".to_string(), "example.com".to_string()),
        ("authorization".to_string(), "token".to_string()),
        ("connection".to_string(), "keep-alive".to_string()),
        ("transfer-encoding".to_string(), "chunked".to_string()),
        ("content-type".to_string(), "application/json".to_string()),
    ];
    let kept = headers_to_forward(&headers);
    assert_eq!(
        kept,
        vec![
            ("authorization".to_string(), "token".to_string()),
            ("content-type".to_string(), "application/json".to_string()),
        ]
    );
}

#[test]
fn relay_headers_add_proxy_marker() {
    let headers = vec![
        ("content-type".to_string(), "application/json".to_string()),
        ("transfer-encoding".to_string(), "chunked".to_string()),
        ("connection".to_string(), "close".to_string()),
        ("host".to_string(), "kept-on-relay".to_string()),
    ];
    let kept = headers_to_relay(&headers);
    assert_eq!(
        kept,
        vec![
            ("content-type".to_string(), "application/json".to_string()),
            ("host".to_string(), "kept-on-relay".to_string()),
            ("x-ghostline-proxy".to_string(), "true".to_string()),
        ]
    );
}
