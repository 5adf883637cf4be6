use shadow_route::quoting::{fee_from_bps, quote_v2_exact_in, signed_edge_bps};
use shadow_route::u256::{DecParseError, U256};

fn u(s: &str) -> U256 {
    U256::from_dec_str(s).unwrap()
}

#[test]
fn u256_decimal_round_trip() {
    let v = u("123456789012345678901234567890");
    assert_eq!(v.to_dec_string(), "123456789012345678901234567890");
    assert_eq!(U256::from_u64(0).to_dec_string(), "0");
    assert_eq!(U256::max_value().to_dec_string(),
        "115792089237316195423570985008687907853269984665640564039457584007913129639935");
}

#[test]
fn u256_parse_errors() {
    assert_eq!(U256::from_dec_str(""), Err(DecParseError::Empty));
    assert_eq!(U256::from_dec_str("12a"), Err(DecParseError::InvalidDigit));
    assert_eq!(
        U256::from_dec_str(
            "115792089237316195423570985008687907853269984665640564039457584007913129639936"
        ),
        Err(DecParseError::TooLarge)
    );
}

#[test]
fn u256_saturating_arithmetic() {
    let max = U256::max_value();
    let one = U256::from_u64(1);
    assert_eq!(max.add_sat(&one), max);
    assert_eq!(max.mul_sat(&U256::from_u64(2)), max);
    let (q, r) = u("1000").div_rem(&U256::from_u64(7));
    assert_eq!(q, U256::from_u64(142));
    assert_eq!(r, U256::from_u64(6));
    assert!(u("5").checked_div_or_zero(&U256::from_u64(0)).is_zero());
}

#[test]
fn quote_v2_zero_inputs_give_zero() {
    let r = u("1000000000000000000000000");
    let a = u("1000000000000000000");
    assert!(quote_v2_exact_in(&U256::from_u64(0), &r, &r, 30, true).is_zero());
    assert!(quote_v2_exact_in(&a, &U256::from_u64(0), &r, 30, true).is_zero());
    assert!(quote_v2_exact_in(&a, &r, &U256::from_u64(0), 30, true).is_zero());
    assert!(quote_v2_exact_in(&a, &U256::from_u64(0), &r, 30, false).is_zero());
}

#[test]
fn quote_v2_exact_value() {
    // fee applied to the input before the product: in = 10^18 * 9970 / 10^4,
    // out = in' * r1 / (r0 + in')
    let r0 = u("1000000000000000000000000");
    let r1 = u("2000000000000000000000000");
    let a = u("1000000000000000000");
    let post_fee = u("997000000000000000");
    let expected = post_fee
        .mul_sat(&r1)
        .checked_div_or_zero(&r0.add_sat(&post_fee));
    assert_eq!(quote_v2_exact_in(&a, &r0, &r1, 30, true), expected);
    // direction flag swaps the reserves
    let swapped = post_fee
        .mul_sat(&r0)
        .checked_div_or_zero(&r1.add_sat(&post_fee));
    assert_eq!(quote_v2_exact_in(&a, &r0, &r1, 30, false), swapped);
}

#[test]
fn fee_from_bps_bounds() {
    let a = u("123456789123456789");
    assert!(fee_from_bps(&a, 0).is_zero());
    assert_eq!(fee_from_bps(&a, 10_000), a);
    // clamped above ten thousand
    assert_eq!(fee_from_bps(&a, 20_000), a);
    // 1 bps of 10^18
    assert_eq!(
        fee_from_bps(&u("1000000000000000000"), 1),
        u("100000000000000")
    );
}

#[test]
fn signed_edge_bps_identities() {
    let x = u("1000000000000000000");
    let two_x = u("2000000000000000000");
    assert_eq!(signed_edge_bps(&x, &U256::from_u64(0)), "0");
    assert_eq!(signed_edge_bps(&x, &x), "0");
    assert_eq!(signed_edge_bps(&two_x, &x), "10000");
    assert_eq!(signed_edge_bps(&U256::from_u64(0), &x), "-10000");
}

#[test]
fn signed_edge_bps_never_negative_zero() {
    // a loss too small to register a basis point renders as plain zero
    let cost = u("1000000");
    let output = u("999999");
    assert_eq!(signed_edge_bps(&output, &cost), "0");
    // and a real loss carries the sign
    assert_eq!(signed_edge_bps(&u("500000"), &cost), "-5000");
}
