use open_guandan_server::config::{
    check_cors_origins, parse_bool, parse_positive, split_origins, AppBuildError, ServerConfig,
};

#[test]
fn defaults_match_the_typescript_server() {
    let config = ServerConfig::default();
    assert_eq!(config.host, "0.0.0.0");
    assert_eq!(config.port, 3004);
    assert_eq!(config.cors_origins, ["http://localhost:5174"]);
    assert!(!config.trust_proxy);
    assert_eq!(config.room_idle_ttl_ms, 600_000);
    assert_eq!(config.reconnect_grace_ms, 90_000);
}

#[test]
fn booleans_accept_words_and_digits() {
    assert_eq!(parse_bool("TRUST_PROXY", None, true), Ok(true));
    assert_eq!(parse_bool("TRUST_PROXY", Some("1".into()), false), Ok(true));
    assert_eq!(parse_bool("TRUST_PROXY", Some("false".into()), true), Ok(false));
    let error = parse_bool("TRUST_PROXY", Some("yes".into()), false).unwrap_err();
    assert_eq!(error.variable(), "TRUST_PROXY");
    assert_eq!(error.message(), "invalid environment variable TRUST_PROXY: must be true, false, 1, or 0");
}

#[test]
fn positive_settings_refuse_zero_garbage_and_overflow() {
    assert_eq!(parse_positive("PORT", None, 3004, 65535, "r"), Ok(3004));
    assert_eq!(parse_positive("PORT", Some("8080".into()), 3004, 65535, "r"), Ok(8080));
    assert_eq!(parse_positive("PORT", Some("+9".into()), 3004, 65535, "r"), Ok(9));
    for raw in ["0", "", "65536", "-1", " 80", "8o"] {
        let error = parse_positive("PORT", Some(raw.into()), 3004, 65535, "r").unwrap_err();
        assert_eq!(error.reason(), "r");
    }
}

#[test]
fn settings_are_read_in_order() {
    let config = ServerConfig::from_settings(
        Some("127.0.0.1".into()),
        Some("9000".into()),
        Some(" https://a.example , ,https://b.example".into()),
        Some("true".into()),
        None,
        Some("5".into()),
    )
    .unwrap();
    assert_eq!(config.host, "127.0.0.1");
    assert_eq!(config.port, 9000);
    assert_eq!(config.cors_origins, ["https://a.example", "https://b.example"]);
    assert!(config.trust_proxy);
    assert_eq!(config.room_idle_ttl_ms, 600_000);
    assert_eq!(config.reconnect_grace_ms, 5);

    let error = ServerConfig::from_settings(None, Some("0".into()), None, Some("maybe".into()), None, None).unwrap_err();
    assert_eq!(error.variable(), "PORT");
    let error = ServerConfig::from_settings(None, None, None, Some("maybe".into()), Some("0".into()), None).unwrap_err();
    assert_eq!(error.variable(), "TRUST_PROXY");
    let error = ServerConfig::from_settings(None, None, None, None, Some("x".into()), None).unwrap_err();
    assert_eq!(error.variable(), "ROOM_IDLE_TTL_MS");
    let error = ServerConfig::from_settings(None, None, None, None, None, Some("0".into())).unwrap_err();
    assert_eq!(error.variable(), "RECONNECT_GRACE_MS");
}

#[test]
fn origins_split_on_commas_and_drop_empty_entries() {
    assert_eq!(split_origins("a,b"), ["a", "b"]);
    assert_eq!(split_origins(" , "), Vec::<String>::new());
    assert_eq!(split_origins("  x  "), ["x"]);
}

#[test]
fn cors_origins_must_be_header_values() {
    assert!(check_cors_origins(&["http://localhost:5174".to_string()]).is_ok());
    match check_cors_origins(&["ok".to_string(), "bad\nvalue".to_string()]) {
        Err(AppBuildError::InvalidCorsOrigin(origin)) => assert_eq!(origin, "bad\nvalue"),
        other => panic!("unexpected {other:?}"),
    }
}
