use shadow_route::config::{
    clean_env_value, env_bool_or_default, env_or_default, env_parse_u64_or_default,
    env_required, env_u64_or_default, parse_hex_u64, parse_u256_dec, parse_u256_list,
    parse_u64_dec, validate_chain_id, ConfigError, HexParseError, RuntimeConfig, RuntimeEnv,
};
use shadow_route::gate::ErrorLogGate;
use shadow_route::providers::reconnect_backoff;
use shadow_route::route::{parse_address, validate_route, RouteConfig, RouteError};
use shadow_route::sanitize::{sanitize_error, sanitize_log_text, sanitize_token};
use shadow_route::stats::{normalized_reason, top_reason_counts, ShadowStats};
use shadow_route::u256::U256;

#[test]
fn sanitize_token_masks_urls() {
    assert_eq!(sanitize_token("https://user:pw@node.example/key"), "<redacted-url>");
    assert_eq!(sanitize_token("(https://node.example/key)"), "(<redacted-url>)");
    assert_eq!(sanitize_token("\"wss://node.example\","), "\"<redacted-url>\",");
    assert_eq!(sanitize_token("plain"), "plain");
    assert_eq!(sanitize_token("(already)"), "(already)");
    // all-punctuation tokens pass through unchanged
    assert_eq!(sanitize_token("\"\""), "\"\"");
}

#[test]
fn sanitize_log_text_joins_on_single_spaces() {
    let s = sanitize_log_text("error  at https://node.example/secret:\tretrying");
    assert_eq!(s, "error at <redacted-url>: retrying");
    // idempotent on already sanitized text
    assert_eq!(sanitize_log_text(&s), s);
    assert_eq!(sanitize_error("ok"), "ok");
    assert_eq!(sanitize_log_text("   "), "");
}

#[test]
fn gate_rate_limits_and_counts() {
    let mut gate = ErrorLogGate::new(1000);
    let first = gate.log(0, "infra", "boom").expect("fresh gate emits");
    assert_eq!(first, "infra: boom");
    assert!(gate.log(100, "infra", "boom").is_none());
    assert!(gate.log(500, "infra", "boom").is_none());
    // after a full interval the line carries the suppression count
    let third = gate.log(1000, "infra", "boom").expect("interval elapsed");
    assert_eq!(third, "infra: boom (suppressed 2 similar log lines)");
    assert!(gate.flush("infra").is_none());
    assert!(gate.log(1500, "infra", "x").is_none());
    assert_eq!(gate.flush("infra").unwrap(), "infra: suppressed 1 similar log lines");
    assert_eq!(gate.suppressed, 0);
}

#[test]
fn stats_rows_match_decisions() {
    let mut stats = ShadowStats::new();
    stats.record("would_trade", "edge_above_threshold");
    stats.record("would_skip", "gas_too_high");
    stats.record("would_skip", "quote_error:a");
    stats.record("would_skip", "quote_error:b");
    assert_eq!(stats.rows_emitted, stats.would_trade + stats.would_skip);
    assert_eq!(stats.would_trade, 1);
    assert_eq!(stats.would_skip, 3);
}

#[test]
fn reason_histogram_uses_prefixes() {
    assert_eq!(normalized_reason("quote_error:foo"), "quote_error");
    assert_eq!(normalized_reason("gas_too_high"), "gas_too_high");
    assert_eq!(normalized_reason(":x"), "");
    let mut stats = ShadowStats::new();
    stats.record("would_skip", "gas_too_high");
    stats.record("would_skip", "quote_error:foo");
    stats.record("would_skip", "quote_error:bar");
    let top = top_reason_counts(&stats, 2);
    assert_eq!(top.len(), 2);
    assert_eq!(top[0].reason, "quote_error");
    assert_eq!(top[0].count, 2);
    assert_eq!(top[1].reason, "gas_too_high");
    assert_eq!(top[1].count, 1);
    // ties rank by reason ascending
    let mut tied = ShadowStats::new();
    tied.record("would_skip", "stale_data:x");
    tied.record("would_skip", "bad_pool_state:y");
    let t = top_reason_counts(&tied, 5);
    assert_eq!(t.len(), 2);
    assert_eq!(t[0].reason, "bad_pool_state");
    assert_eq!(t[1].reason, "stale_data");
}

#[test]
fn env_value_cleaning() {
    assert_eq!(clean_env_value("  \"https://x\"  "), "https://x");
    assert_eq!(clean_env_value("'quoted'"), "quoted");
    assert_eq!(clean_env_value("plain"), "plain");
    assert_eq!(env_or_default(None, "fallback"), "fallback");
    assert_eq!(env_or_default(Some(&"  ".to_string()), "fallback"), "fallback");
    assert_eq!(env_or_default(Some(&" x ".to_string()), "fallback"), "x");
    assert_eq!(env_required(None), Err(ConfigError::MissingVar));
    assert_eq!(env_required(Some(&"\"\"".to_string())), Err(ConfigError::EmptyVar));
    assert_eq!(env_required(Some(&"v".to_string())).unwrap(), "v");
}

#[test]
fn numeric_env_settings() {
    assert_eq!(parse_u64_dec("123"), Some(123));
    assert_eq!(parse_u64_dec("+7"), Some(7));
    assert_eq!(parse_u64_dec("18446744073709551615"), Some(u64::MAX));
    assert_eq!(parse_u64_dec("18446744073709551616"), None);
    assert_eq!(parse_u64_dec(""), None);
    assert_eq!(parse_u64_dec("x1"), None);
    assert_eq!(env_u64_or_default(Some(&"25".to_string()), 5), 25);
    assert_eq!(env_u64_or_default(Some(&"bad".to_string()), 5), 5);
    assert_eq!(env_u64_or_default(None, 5), 5);
    assert_eq!(env_parse_u64_or_default(Some(&"9".to_string()), 1), Ok(9));
    assert_eq!(env_parse_u64_or_default(Some(&"bad".to_string()), 1),
        Err(ConfigError::BadNumber));
    assert_eq!(env_parse_u64_or_default(None, 1), Ok(1));
    assert!(env_bool_or_default(Some(&"TRUE".to_string()), false));
    assert!(env_bool_or_default(Some(&"1".to_string()), false));
    assert!(!env_bool_or_default(Some(&"off".to_string()), true));
    assert!(!env_bool_or_default(Some(&"maybe".to_string()), false));
    assert!(env_bool_or_default(None, true));
}

#[test]
fn u256_config_amounts() {
    assert_eq!(parse_u256_dec(" 42 ").unwrap(), U256::from_u64(42));
    assert!(parse_u256_dec("4.2").is_err());
    let list = parse_u256_list(&vec!["1".to_string(), " 2 ".to_string()]).unwrap();
    assert_eq!(list, vec![U256::from_u64(1), U256::from_u64(2)]);
    assert!(parse_u256_list(&vec!["1".to_string(), "x".to_string()]).is_err());
}

#[test]
fn hex_block_numbers() {
    assert_eq!(parse_hex_u64("0x1a"), Ok(26));
    assert_eq!(parse_hex_u64("0x0"), Ok(0));
    assert_eq!(parse_hex_u64("FF"), Ok(255));
    assert_eq!(parse_hex_u64("0x"), Err(HexParseError::Empty));
    assert_eq!(parse_hex_u64("0xzz"), Err(HexParseError::InvalidDigit));
    assert_eq!(parse_hex_u64("0xffffffffffffffff"), Ok(u64::MAX));
    assert_eq!(parse_hex_u64("0x10000000000000000"), Err(HexParseError::Overflow));
}

#[test]
fn runtime_config_from_env() {
    let env = RuntimeEnv {
        network_name: None,
        rpc_https_url: Some(" \"https://node.example\" ".to_string()),
        rpc_wss_url: Some("wss://node.example".to_string()),
        chain_id: Some("10".to_string()),
        ws_connect_timeout_secs: None,
        http_poll_interval_secs: None,
        ws_reconnect_initial_ms: None,
        ws_reconnect_max_ms: None,
    };
    let c = RuntimeConfig::from_env(&env).unwrap();
    assert_eq!(c.network_name, "base-mainnet");
    assert_eq!(c.rpc_https_url, "https://node.example");
    assert_eq!(c.expected_chain_id, 10);
    assert_eq!(c.ws_connect_timeout_secs, 15);
    assert_eq!(c.http_poll_interval_secs, 2);
    assert_eq!(c.ws_reconnect_initial_ms, 1000);
    assert_eq!(c.ws_reconnect_max_ms, 30000);
    let missing = RuntimeEnv { rpc_https_url: None, ..env };
    assert!(RuntimeConfig::from_env(&missing).is_err());
    assert!(validate_chain_id(10, 10));
    assert!(!validate_chain_id(10, 8453));
}

#[test]
fn backoff_schedule() {
    assert_eq!(reconnect_backoff(1000, 30000, 0), 1000);
    assert_eq!(reconnect_backoff(1000, 30000, 1), 1000);
    assert_eq!(reconnect_backoff(1000, 30000, 2), 2000);
    assert_eq!(reconnect_backoff(1000, 30000, 5), 16000);
    assert_eq!(reconnect_backoff(1000, 30000, 6), 30000);
    assert_eq!(reconnect_backoff(1000, 30000, 100), 30000);
    // the cap is the larger of the two bounds
    assert_eq!(reconnect_backoff(5000, 1000, 3), 5000);
    assert_eq!(reconnect_backoff(u64::MAX, u64::MAX, 11), u64::MAX);
}

fn route_fixture() -> RouteConfig {
    RouteConfig {
        name: "weth-usdc".to_string(),
        token_in_symbol: "WETH".to_string(),
        token_mid_symbol: "USDC".to_string(),
        token_out_symbol: "WETH".to_string(),
        token_in_address: "0x4200000000000000000000000000000000000006".to_string(),
        token_mid_address: "0x833589fcd6edb6e08f4c7c32d4f71b54bda02913".to_string(),
        token_in_decimals: 18,
        token_mid_decimals: 6,
        v2_pair: "0x88a43bbdf9d098eec7bceda4e2494615dfd9bb9c".to_string(),
        v2_fee_bps: 30,
        v3_pool: "0xd0b53d9277642d899df5c87a3966a349a798f224".to_string(),
        v3_pool_fee: 500,
        v3_quoter_v2: "0x3d4e44eb1374240ce5f1b871ab261cd16335b76a".to_string(),
    }
}

#[test]
fn address_parsing() {
    let a = parse_address("0x4200000000000000000000000000000000000006").unwrap();
    let b = parse_address(" 4200000000000000000000000000000000000006 ").unwrap();
    assert_eq!(a, b);
    assert!(parse_address("0x42").is_none());
    assert!(parse_address("zz00000000000000000000000000000000000006").is_none());
}

#[test]
fn route_validation() {
    let raw = route_fixture();
    let token_in = parse_address(&raw.token_in_address).unwrap();
    let token_mid = parse_address(&raw.token_mid_address).unwrap();
    let p = validate_route(&raw, token_in, token_mid, token_mid, token_in, 500).unwrap();
    assert!(p.v2_token0_to1);
    assert_eq!(p.v2_fee_bps, 30);
    assert_eq!(p.v3_pool_fee, 500);
    // swapped pair flips the direction flag
    let p2 = validate_route(&raw, token_mid, token_in, token_in, token_mid, 500).unwrap();
    assert!(!p2.v2_token0_to1);
    // a stranger token in the pair is fatal
    let stranger = parse_address("0x0000000000000000000000000000000000000001").unwrap();
    assert!(matches!(
        validate_route(&raw, stranger, token_mid, token_in, token_mid, 500),
        Err(RouteError::V2TokenMismatch)
    ));
    assert!(matches!(
        validate_route(&raw, token_in, token_mid, stranger, token_mid, 500),
        Err(RouteError::V3TokenMismatch)
    ));
    assert!(matches!(
        validate_route(&raw, token_in, token_mid, token_in, token_mid, 3000),
        Err(RouteError::V3FeeMismatch)
    ));
    let mut bad = route_fixture();
    bad.v2_pair = "nonsense".to_string();
    assert!(matches!(
        validate_route(&bad, token_in, token_mid, token_in, token_mid, 500),
        Err(RouteError::BadAddress)
    ));
}
