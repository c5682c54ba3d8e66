use ipinfo_round_robin_api::config::{mask_key, parse_env, parse_keys, Config, Env};

fn env(keys: Option<&str>) -> Env {
    Env {
        ipinfo_keys: keys.map(String::from),
        port: None,
        host: None,
        cooldown_seconds: None,
        request_timeout_ms: None,
        cache_ttl_seconds: None,
        cache_max_entries: None,
        cache_max_body_bytes: None,
        log_level: None,
        log_format: None,
        ipinfo_base_url: None,
        redact_keys: None,
    }
}

#[test]
fn defaults() {
    let config = Config::from_env(&env(Some("k1,k2"))).unwrap();
    assert_eq!(config.keys, vec!["k1".to_string(), "k2".to_string()]);
    assert_eq!(config.port, 8080);
    assert_eq!(config.host, "0.0.0.0");
    assert_eq!(config.cooldown_seconds, 60);
    assert_eq!(config.request_timeout_ms, 5000);
    assert_eq!(config.cache_ttl_seconds, 300);
    assert_eq!(config.cache_max_entries, 10000);
    assert_eq!(config.cache_max_body_bytes, 32 * 1024);
    assert_eq!(config.log_level, "info");
    assert_eq!(config.log_format, "text");
    assert_eq!(config.ipinfo_base_url, "https://ipinfo.io");
    assert!(!config.redact_keys);
}

#[test]
fn all_variables_set() {
    let mut e = env(Some("k"));
    e.port = Some("65535".into());
    e.host = Some("127.0.0.1".into());
    e.cooldown_seconds = Some("+7".into());
    e.request_timeout_ms = Some("0".into());
    e.cache_ttl_seconds = Some("18446744073709551615".into());
    e.cache_max_entries = Some("0005".into());
    e.cache_max_body_bytes = Some("1".into());
    e.log_level = Some("debug".into());
    e.log_format = Some("json".into());
    e.ipinfo_base_url = Some("http://localhost".into());
    e.redact_keys = Some("TrUe".into());
    let config = Config::from_env(&e).unwrap();
    assert_eq!(config.port, 65535);
    assert_eq!(config.host, "127.0.0.1");
    assert_eq!(config.cooldown_seconds, 7);
    assert_eq!(config.request_timeout_ms, 0);
    assert_eq!(config.cache_ttl_seconds, u64::MAX);
    assert_eq!(config.cache_max_entries, 5);
    assert_eq!(config.cache_max_body_bytes, 1);
    assert_eq!(config.log_level, "debug");
    assert_eq!(config.log_format, "json");
    assert_eq!(config.ipinfo_base_url, "http://localhost");
    assert!(config.redact_keys);
}

#[test]
fn missing_keys() {
    assert_eq!(
        Config::from_env(&env(None)).unwrap_err(),
        "IPINFO_KEYS is required but not set"
    );
    for raw in ["", ",", " , ,\t"] {
        assert_eq!(
            Config::from_env(&env(Some(raw))).unwrap_err(),
            "IPINFO_KEYS must contain at least one key"
        );
    }
}

#[test]
fn numbers_out_of_range_are_named() {
    let mut e = env(Some("k"));
    e.port = Some("65536".into());
    assert_eq!(
        Config::from_env(&e).unwrap_err(),
        "Invalid value for PORT: number too large to fit in target type"
    );
    e.port = Some("80a".into());
    assert_eq!(
        Config::from_env(&e).unwrap_err(),
        "Invalid value for PORT: invalid digit found in string"
    );
    e.port = Some("".into());
    assert_eq!(
        Config::from_env(&e).unwrap_err(),
        "Invalid value for PORT: cannot parse integer from empty string"
    );
}

#[test]
fn first_problem_is_reported() {
    let bad = Some("x".to_string());
    let mut e = env(Some("k"));
    e.cache_max_body_bytes = bad.clone();
    let name = |e: &Env| Config::from_env(e).unwrap_err();
    assert!(name(&e).starts_with("Invalid value for CACHE_MAX_BODY_BYTES: "));
    e.cache_max_entries = bad.clone();
    assert!(name(&e).starts_with("Invalid value for CACHE_MAX_ENTRIES: "));
    e.cache_ttl_seconds = bad.clone();
    assert!(name(&e).starts_with("Invalid value for CACHE_TTL_SECONDS: "));
    e.request_timeout_ms = bad.clone();
    assert!(name(&e).starts_with("Invalid value for REQUEST_TIMEOUT_MS: "));
    e.cooldown_seconds = bad.clone();
    assert!(name(&e).starts_with("Invalid value for COOLDOWN_SECONDS: "));
    e.port = bad.clone();
    assert!(name(&e).starts_with("Invalid value for PORT: "));
    e.ipinfo_keys = None;
    assert!(name(&e).starts_with("IPINFO_KEYS is required"));
}

#[test]
fn only_true_turns_redaction_on() {
    for (value, on) in [("true", true), ("TRUE", true), ("1", false), (" true", false), ("yes", false)] {
        let mut e = env(Some("k"));
        e.redact_keys = Some(value.into());
        assert_eq!(Config::from_env(&e).unwrap().redact_keys, on);
    }
}

#[test]
fn key_lists_are_cleaned() {
    assert_eq!(parse_keys(" a ,,b\u{3000}, c d ,"), vec!["a", "b", "c d"]);
    for raw in ["a,b", ",,", " x", "y ", "é , ß", "a\u{a0},\u{2003}b"] {
        let expected: Vec<String> = raw
            .split(',')
            .map(|s| s.trim().to_string())
            .filter(|s| !s.is_empty())
            .collect();
        assert_eq!(parse_keys(raw), expected);
    }
}

#[test]
fn parse_env_agrees_with_the_standard_parser() {
    for text in ["", "+", "-", "-1", "+1", "0", "007", "255", "256", "99999x", "9x9999999", "1 ", "\u{664}"] {
        let expected = text.parse::<u8>().map(u64::from).map_err(|e| format!("Invalid value for N: {e}"));
        assert_eq!(parse_env(&Some(text.to_string()), "N", 3, 255), expected, "{text:?}");
    }
    assert_eq!(parse_env(&None, "N", 3, 255), Ok(3));
}

#[test]
fn masked_keys_show_three_characters() {
    assert_eq!(mask_key(""), "***");
    assert_eq!(mask_key("abc"), "***");
    assert_eq!(mask_key("abcd"), "***bcd");
    assert_eq!(mask_key("secret-key-123"), "***123");
    assert_eq!(mask_key("another-key-123"), mask_key("secret-key-123"));
    assert_eq!(mask_key("schlüssel"), "***sel");
    assert_eq!(mask_key("clé-été"), "***été");
}
