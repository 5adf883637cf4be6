use serde_json::Value;
use shadow_route::quoting::quote_v2_exact_in;
use shadow_route::row::{emit_row, emit_summary, log_route_error, EmitContext, ErrorEmitContext};
use shadow_route::scheduler::{
    block_age_secs, classify, is_stale, poll_interval_ms, prepare_size, Classification,
    ShadowScheduler,
};
use shadow_route::stats::ShadowStats;
use shadow_route::u256::U256;

fn u(s: &str) -> U256 {
    U256::from_dec_str(s).unwrap()
}

fn ctx(input: U256, gas_price: U256, gas_cost: U256, flash_fee: U256, v2_out: U256, v3_out: U256)
    -> EmitContext {
    EmitContext {
        run_id: "shadow-1".to_string(),
        network: "base-mainnet".to_string(),
        route: "weth-usdc".to_string(),
        block: 1000,
        block_age_secs: 2,
        input,
        gas_price,
        gas_cost,
        flash_fee,
        v2_out_mid: v2_out,
        v3_out,
        v3_quote_latency_ms: 7,
    }
}

const SCHEMA: [&str; 18] = [
    "run_id", "ts_unix_ms", "network", "route", "block", "block_age_secs", "input_wei",
    "gas_price_wei", "gas_cost_wei", "flash_fee_wei", "total_cost_wei", "v2_out_mid_wei",
    "v3_out_wei", "net_wei", "edge_bps", "v3_quote_latency_ms", "decision", "reason",
];

fn parse_row(line: &str) -> Value {
    let v: Value = serde_json::from_str(line).expect("row must be valid JSON");
    let obj = v.as_object().expect("row must be an object");
    assert_eq!(obj.len(), SCHEMA.len());
    for key in SCHEMA {
        assert!(obj.contains_key(key), "missing field {key}");
    }
    // the signed edge must read back as a signed decimal
    let edge = v["edge_bps"].as_str().unwrap().to_string();
    edge.parse::<i128>().expect("edge_bps must be a signed decimal");
    v
}

#[test]
fn happy_trade_row() {
    let input = u("1000000000000000000");
    let r = u("1000000000000000000000000");
    let gas_price = u("1000000000");
    let prep = prepare_size(&input, &gas_price, 100_000, 0, &r, &r, 30, true);
    assert!(!prep.v2_out_mid.is_zero());
    let v3_out = input.mul_sat(&U256::from_u64(2));
    let max_gas = u("1000000000000");
    let min_profit = U256::from_u64(0);
    let c = classify(&gas_price, &max_gas, &input, &prep.flash_fee, &prep.gas_cost, &v3_out,
        &min_profit);
    assert_eq!(c, Classification::EdgeAboveThreshold);
    let mut stats = ShadowStats::new();
    let line = emit_row(
        &ctx(input, gas_price, prep.gas_cost, prep.flash_fee, prep.v2_out_mid, v3_out),
        1234,
        &c.decision_str(),
        &c.reason_str(),
        &mut stats,
    );
    let v = parse_row(&line);
    assert_eq!(v["decision"], "would_trade");
    assert_eq!(v["reason"], "edge_above_threshold");
    let net: u128 = v["net_wei"].as_str().unwrap().parse().unwrap();
    assert!(net > 0);
    assert_eq!(stats.rows_emitted, 1);
    assert_eq!(stats.would_trade, 1);
}

#[test]
fn gas_too_high_skips() {
    let input = u("1000000000000000000");
    let r = u("1000000000000000000000000");
    let gas_price = u("1000000000");
    let prep = prepare_size(&input, &gas_price, 100_000, 0, &r, &r, 30, true);
    let v3_out = input.mul_sat(&U256::from_u64(2));
    let c = classify(&gas_price, &U256::from_u64(1), &input, &prep.flash_fee, &prep.gas_cost,
        &v3_out, &U256::from_u64(0));
    assert_eq!(c, Classification::GasTooHigh);
    assert_eq!(c.decision_str(), "would_skip");
    assert_eq!(c.reason_str(), "gas_too_high");
}

#[test]
fn below_min_profit_skips() {
    let input = u("1000000000000000000");
    let r = u("1000000000000000000000000");
    let gas_price = u("1000000000");
    let prep = prepare_size(&input, &gas_price, 100_000, 0, &r, &r, 30, true);
    let v3_out = input.mul_sat(&U256::from_u64(2));
    let min_profit = u("1000000000000000000000000000000");
    let c = classify(&gas_price, &u("1000000000000"), &input, &prep.flash_fee, &prep.gas_cost,
        &v3_out, &min_profit);
    assert_eq!(c, Classification::BelowMinProfit);
    assert_eq!(c.reason_str(), "below_min_profit");
    // an output below total cost lands in the same bucket
    let c2 = classify(&gas_price, &u("1000000000000"), &input, &prep.flash_fee,
        &prep.gas_cost, &U256::from_u64(1), &U256::from_u64(0));
    assert_eq!(c2, Classification::BelowMinProfit);
}

#[test]
fn zero_reserve_gives_zero_quote_and_block_counts() {
    let input = u("1000000000000000000");
    let zero = U256::from_u64(0);
    let r1 = u("1000000000000000000000000");
    let out = quote_v2_exact_in(&input, &zero, &r1, 30, true);
    assert!(out.is_zero());
    let mut sched = ShadowScheduler::new();
    let mut stats = ShadowStats::new();
    assert!(sched.observe_block_number(42));
    stats.see_block();
    assert_eq!(stats.blocks_seen, 1);
    // one zero-filled skip row per configured size
    let sizes = vec![input, input.mul_sat(&U256::from_u64(2))];
    let lines = log_route_error(
        &ErrorEmitContext {
            run_id: "shadow-1".to_string(),
            network: "base-mainnet".to_string(),
            route: "weth-usdc".to_string(),
            block: 42,
            block_age_secs: 0,
        },
        1234,
        "bad_pool_state",
        "v2_zero_reserve",
        &sizes,
        &mut stats,
    );
    assert_eq!(lines.len(), 2);
    for line in &lines {
        let v = parse_row(line);
        assert_eq!(v["decision"], "would_skip");
        assert_eq!(v["reason"], "bad_pool_state:v2_zero_reserve");
        assert_eq!(v["gas_price_wei"], "0");
        assert_eq!(v["v3_out_wei"], "0");
    }
    assert_eq!(stats.would_skip, 2);
    assert_eq!(stats.rows_emitted, 2);
}

#[test]
fn stale_block_rows() {
    // the block is older than the configured bound
    let age = block_age_secs(1_000_100, 1_000_000);
    assert_eq!(age, 100);
    assert!(is_stale(age, 30));
    assert!(!is_stale(age, 100));
    // clock behind the block saturates at zero
    assert_eq!(block_age_secs(5, 10), 0);
    let mut stats = ShadowStats::new();
    let lines = log_route_error(
        &ErrorEmitContext {
            run_id: "shadow-1".to_string(),
            network: "base-mainnet".to_string(),
            route: "weth-usdc".to_string(),
            block: 43,
            block_age_secs: age,
        },
        1234,
        "stale_data",
        "block_age_secs=100",
        &vec![u("1000000000000000000")],
        &mut stats,
    );
    assert_eq!(lines.len(), 1);
    let v = parse_row(&lines[0]);
    assert_eq!(v["reason"], "stale_data:block_age_secs=100");
    assert_eq!(v["block_age_secs"], 100);
}

#[test]
fn cancellation_mid_block_keeps_first_row_only() {
    // three sizes; the loop is cancelled while quoting the second, so
    // only the first row exists and the final summary reports it
    let input = u("1000000000000000000");
    let r = u("1000000000000000000000000");
    let gas_price = u("1000000000");
    let mut stats = ShadowStats::new();
    let mut sched = ShadowScheduler::new();
    assert!(sched.observe_block_number(7));
    stats.see_block();
    let prep = prepare_size(&input, &gas_price, 100_000, 0, &r, &r, 30, true);
    let v3_out = input.mul_sat(&U256::from_u64(2));
    let c = classify(&gas_price, &u("1000000000000"), &input, &prep.flash_fee, &prep.gas_cost,
        &v3_out, &U256::from_u64(0));
    let _line = emit_row(
        &ctx(input, gas_price, prep.gas_cost, prep.flash_fee, prep.v2_out_mid, v3_out),
        1234,
        &c.decision_str(),
        &c.reason_str(),
        &mut stats,
    );
    // sizes two and three are abandoned: no further rows are emitted
    let summary = emit_summary("shadow-1", "base-mainnet", "weth-usdc", sched.latest_block(),
        "final", &stats);
    let v: Value = serde_json::from_str(&summary).unwrap();
    assert_eq!(v["summary_kind"], "final");
    assert_eq!(v["latest_block"], 7);
    assert_eq!(v["rows_emitted"], 1);
    assert_eq!(v["blocks_seen"], 1);
}

#[test]
fn summary_shape_and_top_reasons() {
    let mut stats = ShadowStats::new();
    stats.record("would_skip", "gas_too_high");
    stats.record("would_skip", "quote_error:foo");
    stats.record("would_skip", "quote_error:bar");
    let summary = emit_summary("shadow-9", "base-mainnet", "weth-usdc", 55, "periodic", &stats);
    let v: Value = serde_json::from_str(&summary).unwrap();
    let obj = v.as_object().unwrap();
    for key in ["run_id", "network", "route", "summary_kind", "latest_block", "blocks_seen",
        "rows_emitted", "would_trade", "would_skip", "top_reasons"] {
        assert!(obj.contains_key(key), "missing {key}");
    }
    let tops = v["top_reasons"].as_array().unwrap();
    assert_eq!(tops.len(), 2);
    assert_eq!(tops[0]["reason"], "quote_error");
    assert_eq!(tops[0]["count"], 2);
    assert_eq!(tops[1]["reason"], "gas_too_high");
    assert_eq!(tops[1]["count"], 1);
}

#[test]
fn scheduler_cadence() {
    let mut sched = ShadowScheduler::new();
    assert!(sched.observe_block_number(10));
    assert!(!sched.observe_block_number(10));
    assert!(sched.observe_block_number(11));
    assert_eq!(sched.processed_blocks, 2);
    assert_eq!(sched.latest_block(), 11);
    assert!(sched.should_emit_summary(2));
    assert!(!sched.should_emit_summary(3));
    assert!(sched.reached_max_blocks(&Some(2)));
    assert!(!sched.reached_max_blocks(&Some(3)));
    assert!(!sched.reached_max_blocks(&None));
    assert_eq!(poll_interval_ms(100), 250);
    assert_eq!(poll_interval_ms(1500), 1500);
}

#[test]
fn row_escapes_strings() {
    let mut stats = ShadowStats::new();
    let mut c = ctx(u("1"), u("1"), u("1"), u("0"), u("1"), u("2"));
    c.route = "we\"ird\\route\n".to_string();
    let line = emit_row(&c, 1, "would_skip", "quote_error:v3_quoter_failed", &mut stats);
    let v = parse_row(&line);
    assert_eq!(v["route"], "we\"ird\\route\n");
}
