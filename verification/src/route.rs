//! The trade route: token addresses, the venues, and the startup check
//! that the configured pair and pool really carry the configured tokens
//! and fee. The on-chain answers are handed in by the caller; everything
//! decided here is decided from plain values.

use vstd::prelude::*;
use crate::u256::U256;
use crate::text::{str_chars, trim_spaces, spec_trim, spec_hex_digit, hex_digit_value};
use crate::config::{all_hex_digits, spec_hex_value};

verus! {

use vstd::arithmetic::power2::pow2;

/// A 20-byte account address, held by value.
#[derive(Clone, Copy, PartialEq, Eq, Structural, Debug)]
pub struct Addr {
    pub num: U256,
}

/// An address is a 160-bit quantity.
pub open spec fn addr_wf(a: Addr) -> bool {
    a.num@ < 0x10000000000000000000000000000000000000000
}

/// The address digits of a configured string: surrounding whitespace
/// dropped, one optional `0x` prefix dropped.
pub open spec fn spec_addr_digits(s: Seq<char>) -> Seq<char> {
    let t = spec_trim(s);
    if t.len() >= 2 && t[0] == '0' && t[1] == 'x' {
        t.skip(2)
    } else {
        t
    }
}

/// Whether a configured string is a well-formed address: exactly forty
/// hexadecimal digits.
pub open spec fn spec_addr_ok(s: Seq<char>) -> bool {
    let d = spec_addr_digits(s);
    d.len() == 40 && all_hex_digits(d)
}

/// The concrete value of 2^160, the address bound.
proof fn lemma_pow2_160()
    ensures
        pow2(160) == 0x10000000000000000000000000000000000000000nat,
{
    vstd::arithmetic::power2::lemma_pow2_adds(96, 64);
    vstd::arithmetic::power2::lemma_pow2_adds(32, 64);
    vstd::arithmetic::power2::lemma2_to64();
    assert(pow2(96) == 0x1000000000000000000000000nat) by (nonlinear_arith)
        requires
            pow2(96) == pow2(32) * pow2(64),
            pow2(32) == 0x100000000nat,
            pow2(64) == 0x10000000000000000nat,
    ;
    assert(pow2(160) == 0x10000000000000000000000000000000000000000nat) by (nonlinear_arith)
        requires
            pow2(160) == pow2(96) * pow2(64),
            pow2(96) == 0x1000000000000000000000000nat,
            pow2(64) == 0x10000000000000000nat,
    ;
}

/// A hex string of bounded length has a bounded value.
proof fn lemma_hex_value_bound(s: Seq<char>)
    requires
        all_hex_digits(s),
    ensures
        spec_hex_value(s) < pow2((4 * s.len()) as nat),
    decreases s.len(),
{
    vstd::arithmetic::power2::lemma_pow2_pos((4 * s.len()) as nat);
    if s.len() == 0 {
        vstd::arithmetic::power2::lemma2_to64();
    } else {
        assert(all_hex_digits(s.drop_last())) by {
            assert(forall|i: int| 0 <= i < s.len() - 1 ==> s.drop_last()[i] == s[i]);
        }
        lemma_hex_value_bound(s.drop_last());
        vstd::arithmetic::power2::lemma_pow2_adds((4 * (s.len() - 1)) as nat, 4);
        vstd::arithmetic::power2::lemma2_to64();
        let p = pow2((4 * (s.len() - 1)) as nat);
        assert(spec_hex_value(s.drop_last()) * 16 + spec_hex_digit(s.last()) < p * 16)
            by (nonlinear_arith)
            requires
                spec_hex_value(s.drop_last()) < p,
                spec_hex_digit(s.last()) < 16,
        ;
        assert(pow2((4 * s.len()) as nat) == p * 16);
    }
}

/// Parse a configured address string into an address value.
pub fn parse_address(value: &str) -> (r: Option<Addr>)
    ensures
        match r {
            Some(a) => spec_addr_ok(value@) && addr_wf(a) && a.num@ == spec_hex_value(
                spec_addr_digits(value@),
            ),
            None => !spec_addr_ok(value@),
        },
{
    let chars = str_chars(value);
    let trimmed = trim_spaces(&chars);
    let start: usize = if trimmed.len() >= 2 && trimmed[0] == '0' && trimmed[1] == 'x' {
        2
    } else {
        0
    };
    proof {
        assert(trimmed@.skip(start as int) =~= spec_addr_digits(value@));
    }
    let ghost digits = trimmed@.skip(start as int);
    if trimmed.len() - start != 40 {
        return None;
    }
    let sixteen = U256::from_u64(16);
    let mut acc = U256::zero();
    let mut i: usize = start;
    proof {
        vstd::arithmetic::power2::lemma2_to64();
        assert(digits.take(0) =~= Seq::<char>::empty());
    }
    while i < trimmed.len()
        invariant
            sixteen@ == 16,
            start <= i <= trimmed@.len(),
            digits == trimmed@.skip(start as int),
            digits == spec_addr_digits(value@),
            digits.len() == 40,
            all_hex_digits(digits.take(i - start)),
            acc@ == spec_hex_value(digits.take(i - start)),
            acc@ < pow2((4 * (i - start)) as nat),
        decreases trimmed@.len() - i,
    {
        let d = hex_digit_value(trimmed[i]);
        proof {
            assert(digits[i - start] == trimmed@[i as int]);
        }
        if d >= 16 {
            proof {
                assert(digits == spec_addr_digits(value@));
                assert(!crate::text::is_hex_digit(spec_addr_digits(value@)[i - start]));
            }
            return None;
        }
        proof {
            lemma_hex_value_bound(digits.take(i - start));
            vstd::arithmetic::power2::lemma_pow2_adds((4 * (i - start)) as nat, 4);
            vstd::arithmetic::power2::lemma2_to64();
            lemma_pow2_160();
            let p = pow2((4 * (i - start)) as nat);
            assert(acc@ * 16 + d < p * 16) by (nonlinear_arith)
                requires
                    acc@ < p,
                    d < 16,
            ;
            assert(pow2((4 * (i - start + 1)) as nat) == p * 16);
            assert(pow2((4 * (i - start + 1)) as nat) <= pow2(160)) by {
                if 4 * (i - start + 1) < 160 {
                    vstd::arithmetic::power2::lemma_pow2_adds(
                        (4 * (i - start + 1)) as nat,
                        (160 - 4 * (i - start + 1)) as nat,
                    );
                    vstd::arithmetic::power2::lemma_pow2_pos(
                        (160 - 4 * (i - start + 1)) as nat,
                    );
                    vstd::arithmetic::mul::lemma_mul_inequality(
                        1,
                        pow2((160 - 4 * (i - start + 1)) as nat) as int,
                        pow2((4 * (i - start + 1)) as nat) as int,
                    );
                }
            }
            assert(digits.take(i - start + 1) =~= digits.take(i - start).push(
                digits[i - start],
            ));
            crate::config::lemma_hex_value_push(digits.take(i - start), digits[i - start]);
        }
        let shifted = acc.mul_sat(&sixteen);
        proof {
            assert(crate::u256::clamp256(acc@ * 16) == acc@ * 16);
        }
        acc = shifted.add_sat(&U256::from_u64(d as u64));
        i = i + 1;
    }
    proof {
        assert(digits.take(i - start) =~= digits);
        lemma_pow2_160();
    }
    Some(Addr { num: acc })
}

/// The route's raw configuration, as the JSON file holds it.
pub struct RouteConfig {
    pub name: String,
    pub token_in_symbol: String,
    pub token_mid_symbol: String,
    pub token_out_symbol: String,
    pub token_in_address: String,
    pub token_mid_address: String,
    pub token_in_decimals: u8,
    pub token_mid_decimals: u8,
    pub v2_pair: String,
    pub v2_fee_bps: u64,
    pub v3_pool: String,
    pub v3_pool_fee: u32,
    pub v3_quoter_v2: String,
}

/// The validated route: every address parsed, the pair direction fixed,
/// the fee confirmed on chain.
pub struct ParsedRoute {
    pub name: String,
    pub token_in: Addr,
    pub token_mid: Addr,
    pub v2_pair: Addr,
    pub v2_fee_bps: u64,
    pub v2_token0_to1: bool,
    pub v3_pool: Addr,
    pub v3_pool_fee: u32,
    pub v3_quoter_v2: Addr,
}

/// Why the route failed validation.
#[derive(Clone, Copy, PartialEq, Eq, Structural, Debug)]
pub enum RouteError {
    /// One of the configured addresses does not parse.
    BadAddress,
    /// The pair's on-chain tokens are not the configured pair in either
    /// order.
    V2TokenMismatch,
    /// The pool's on-chain tokens are not the configured pair in either
    /// order.
    V3TokenMismatch,
    /// The pool's on-chain fee differs from the configured one.
    V3FeeMismatch,
}

/// Whether the two observed tokens are exactly the configured two, in
/// the given order.
pub open spec fn spec_pair_matches(t0: Addr, t1: Addr, token_in: Addr, token_mid: Addr) -> bool {
    t0.num@ == token_in.num@ && t1.num@ == token_mid.num@
}

/// Validate the configured route against what the chain reports: the
/// pair's `token0`/`token1`, the pool's `token0`/`token1`, and the
/// pool's fee. Decides the pair direction flag used by the quoter.
pub fn validate_route(
    raw: &RouteConfig,
    v2_token0: Addr,
    v2_token1: Addr,
    v3_token0: Addr,
    v3_token1: Addr,
    v3_fee_onchain: u32,
) -> (r: Result<ParsedRoute, RouteError>)
    ensures
        ({
            let addrs_ok = spec_addr_ok(raw.token_in_address@) && spec_addr_ok(
                raw.token_mid_address@,
            ) && spec_addr_ok(raw.v2_pair@) && spec_addr_ok(raw.v3_pool@) && spec_addr_ok(
                raw.v3_quoter_v2@,
            );
            let tin = spec_hex_value(spec_addr_digits(raw.token_in_address@));
            let tmid = spec_hex_value(spec_addr_digits(raw.token_mid_address@));
            let fwd = v2_token0.num@ == tin && v2_token1.num@ == tmid;
            let rev = v2_token0.num@ == tmid && v2_token1.num@ == tin;
            let v3ok = (v3_token0.num@ == tin && v3_token1.num@ == tmid) || (v3_token0.num@
                == tmid && v3_token1.num@ == tin);
            match r {
                Ok(p) => {
                    &&& addrs_ok
                    &&& (fwd || rev)
                    &&& p.v2_token0_to1 == fwd
                    &&& v3ok
                    &&& v3_fee_onchain == raw.v3_pool_fee
                    &&& p.name@ == raw.name@
                    &&& p.token_in.num@ == tin
                    &&& p.token_mid.num@ == tmid
                    &&& p.v2_pair.num@ == spec_hex_value(spec_addr_digits(raw.v2_pair@))
                    &&& p.v3_pool.num@ == spec_hex_value(spec_addr_digits(raw.v3_pool@))
                    &&& p.v3_quoter_v2.num@ == spec_hex_value(
                        spec_addr_digits(raw.v3_quoter_v2@),
                    )
                    &&& p.v2_fee_bps == if raw.v2_fee_bps > 10000 {
                        10000int
                    } else {
                        raw.v2_fee_bps as int
                    }
                    &&& p.v3_pool_fee == v3_fee_onchain
                },
                Err(e) => match e {
                    RouteError::BadAddress => !addrs_ok,
                    RouteError::V2TokenMismatch => addrs_ok && !fwd && !rev,
                    RouteError::V3TokenMismatch => addrs_ok && (fwd || rev) && !v3ok,
                    RouteError::V3FeeMismatch => addrs_ok && (fwd || rev) && v3ok
                        && v3_fee_onchain != raw.v3_pool_fee,
                },
            }
        }),
{
    let token_in = match parse_address(raw.token_in_address.as_str()) {
        Some(a) => a,
        None => {
            return Err(RouteError::BadAddress);
        },
    };
    let token_mid = match parse_address(raw.token_mid_address.as_str()) {
        Some(a) => a,
        None => {
            return Err(RouteError::BadAddress);
        },
    };
    let v2_pair = match parse_address(raw.v2_pair.as_str()) {
        Some(a) => a,
        None => {
            return Err(RouteError::BadAddress);
        },
    };
    let v3_pool = match parse_address(raw.v3_pool.as_str()) {
        Some(a) => a,
        None => {
            return Err(RouteError::BadAddress);
        },
    };
    let v3_quoter_v2 = match parse_address(raw.v3_quoter_v2.as_str()) {
        Some(a) => a,
        None => {
            return Err(RouteError::BadAddress);
        },
    };
    proof {
        crate::u256::U256::lemma_view_injective(v2_token0.num, token_in.num);
        crate::u256::U256::lemma_view_injective(v2_token0.num, token_mid.num);
        crate::u256::U256::lemma_view_injective(v2_token1.num, token_in.num);
        crate::u256::U256::lemma_view_injective(v2_token1.num, token_mid.num);
        crate::u256::U256::lemma_view_injective(v3_token0.num, token_in.num);
        crate::u256::U256::lemma_view_injective(v3_token0.num, token_mid.num);
        crate::u256::U256::lemma_view_injective(v3_token1.num, token_in.num);
        crate::u256::U256::lemma_view_injective(v3_token1.num, token_mid.num);
    }
    let v2_token0_to1: bool;
    if v2_token0.num == token_in.num && v2_token1.num == token_mid.num {
        v2_token0_to1 = true;
    } else if v2_token0.num == token_mid.num && v2_token1.num == token_in.num {
        v2_token0_to1 = false;
    } else {
        return Err(RouteError::V2TokenMismatch);
    }
    let v3_has_tokens = (v3_token0.num == token_in.num && v3_token1.num == token_mid.num) || (
    v3_token0.num == token_mid.num && v3_token1.num == token_in.num);
    if !v3_has_tokens {
        return Err(RouteError::V3TokenMismatch);
    }
    if v3_fee_onchain != raw.v3_pool_fee {
        return Err(RouteError::V3FeeMismatch);
    }
    let v2_fee_bps: u64 = if raw.v2_fee_bps > 10000 {
        10000
    } else {
        raw.v2_fee_bps
    };
    Ok(
        ParsedRoute {
            name: raw.name.clone(),
            token_in,
            token_mid,
            v2_pair,
            v2_fee_bps,
            v2_token0_to1,
            v3_pool,
            v3_pool_fee: v3_fee_onchain,
            v3_quoter_v2,
        },
    )
}

/// One read-only quote request against the far-leg quoter. The tokens
/// swap direction: the quote sells the mid token back into the input
/// token, with the near leg's output as the amount, at the pinned block,
/// and with a zero price limit.
pub struct V3QuoteRequest {
    pub quoter: Addr,
    pub token_in: Addr,
    pub token_out: Addr,
    pub amount_in: U256,
    pub fee: u32,
    pub sqrt_price_limit: u64,
    pub block: u64,
}

/// Build the far-leg quote request for one evaluated size.
pub fn v3_request(route: &ParsedRoute, v2_out_mid: &U256, block: u64) -> (r: V3QuoteRequest)
    ensures
        r.quoter == route.v3_quoter_v2,
        r.token_in == route.token_mid,
        r.token_out == route.token_in,
        r.amount_in == *v2_out_mid,
        r.fee == route.v3_pool_fee,
        r.sqrt_price_limit == 0,
        r.block == block,
{
    V3QuoteRequest {
        quoter: route.v3_quoter_v2,
        token_in: route.token_mid,
        token_out: route.token_in,
        amount_in: *v2_out_mid,
        fee: route.v3_pool_fee,
        sqrt_price_limit: 0,
        block,
    }
}

} // verus!
