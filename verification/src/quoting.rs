//! Fee arithmetic, the constant-product quote, and the signed edge
//! rendering, with the exact saturation and truncation behaviour the
//! evaluation pipeline relies on.

use vstd::prelude::*;
use crate::u256::{U256, clamp256, u256_max, spec_dec_string};

verus! {

use vstd::arithmetic::div_mod::lemma_div_multiples_vanish;

/// Basis points are clamped at the full ten thousand.
pub open spec fn spec_clamp_bps(bps: nat) -> nat {
    if bps > 10000 {
        10000
    } else {
        bps
    }
}

/// `amount * bps / 10_000`, the multiplication saturating and the division
/// truncating toward zero.
pub open spec fn spec_fee_from_bps(amount: nat, bps: nat) -> nat {
    clamp256(amount * spec_clamp_bps(bps)) / 10000
}

/// The constant-product exact-input quote. Zero input, a zero reserve on
/// either side, or a zero denominator all yield zero rather than an error;
/// the fee is taken off the input before the product, compounding the
/// rounding differently from the canonical in-numerator form.
pub open spec fn spec_quote_v2(
    amount_in: nat,
    reserve0: nat,
    reserve1: nat,
    fee_bps: nat,
    token0_to1: bool,
) -> nat {
    let r_in = if token0_to1 {
        reserve0
    } else {
        reserve1
    };
    let r_out = if token0_to1 {
        reserve1
    } else {
        reserve0
    };
    if amount_in == 0 || r_in == 0 || r_out == 0 {
        0
    } else {
        let fee_num = (10000 - spec_clamp_bps(fee_bps)) as nat;
        let post_fee = clamp256(amount_in * fee_num) / 10000;
        let numerator = clamp256(post_fee * r_out);
        let denominator = clamp256(r_in + post_fee);
        if denominator == 0 {
            0
        } else {
            numerator / denominator
        }
    }
}

/// The signed edge in basis points over total cost, as a decimal string:
/// `(output - cost) * 10_000 / cost`, with a `-` sign when the output falls
/// short, `"0"` on zero cost, and never a negative zero.
pub open spec fn spec_signed_edge_bps(output: nat, cost: nat) -> Seq<char> {
    if cost == 0 {
        seq!['0']
    } else if output >= cost {
        spec_dec_string(clamp256(((output - cost) * 10000) as nat) / cost)
    } else {
        let mag = clamp256(((cost - output) * 10000) as nat) / cost;
        if mag == 0 {
            seq!['0']
        } else {
            seq!['-'] + spec_dec_string(mag)
        }
    }
}

/// The flash-loan fee on a principal, in basis points.
pub fn fee_from_bps(amount: &U256, bps: u64) -> (r: U256)
    ensures
        r@ == spec_fee_from_bps(amount@, bps as nat),
{
    let clamped: u64 = if bps > 10000 {
        10000
    } else {
        bps
    };
    let product = amount.mul_sat(&U256::from_u64(clamped));
    product.checked_div_or_zero(&U256::from_u64(10000))
}

/// The output of a constant-product swap for an exact input.
pub fn quote_v2_exact_in(
    amount_in: &U256,
    reserve0: &U256,
    reserve1: &U256,
    fee_bps: u64,
    token0_to1: bool,
) -> (r: U256)
    ensures
        r@ == spec_quote_v2(amount_in@, reserve0@, reserve1@, fee_bps as nat, token0_to1),
{
    let (reserve_in, reserve_out) = if token0_to1 {
        (reserve0, reserve1)
    } else {
        (reserve1, reserve0)
    };
    if amount_in.is_zero() || reserve_in.is_zero() || reserve_out.is_zero() {
        return U256::zero();
    }
    let clamped: u64 = if fee_bps > 10000 {
        10000
    } else {
        fee_bps
    };
    let fee_numerator = U256::from_u64(10000 - clamped);
    let fee_denominator = U256::from_u64(10000);
    let amount_in_with_fee = amount_in.mul_sat(&fee_numerator).checked_div_or_zero(
        &fee_denominator,
    );
    let numerator = amount_in_with_fee.mul_sat(reserve_out);
    let denominator = reserve_in.add_sat(&amount_in_with_fee);
    if denominator.is_zero() {
        return U256::zero();
    }
    numerator.checked_div_or_zero(&denominator)
}

/// The signed edge over total cost, rendered in decimal basis points.
pub fn signed_edge_bps(output: &U256, total_cost: &U256) -> (r: String)
    ensures
        r@ == spec_signed_edge_bps(output@, total_cost@),
{
    if total_cost.is_zero() {
        let mut s = String::new();
        s.push('0');
        return s;
    }
    let precision = U256::from_u64(10000);
    if total_cost.le(output) {
        let gain = output.sub_exact(total_cost);
        let bps = gain.mul_sat(&precision).checked_div_or_zero(total_cost);
        bps.to_dec_string()
    } else {
        let loss = total_cost.sub_exact(output);
        let bps = loss.mul_sat(&precision).checked_div_or_zero(total_cost);
        if bps.is_zero() {
            let mut s = String::new();
            s.push('0');
            return s;
        }
        let mut s = String::new();
        s.push('-');
        let digits = bps.to_dec_string();
        s.append(digits.as_str());
        proof {
            assert(s@ =~= seq!['-'] + spec_dec_string(bps@));
        }
        s
    }
}

/// The constant-product quote is zero whenever the input amount or either
/// reserve is zero, whatever the fee and direction.
pub proof fn lemma_quote_v2_zero_inputs(
    amount_in: nat,
    reserve0: nat,
    reserve1: nat,
    fee_bps: nat,
    token0_to1: bool,
)
    ensures
        spec_quote_v2(0, reserve0, reserve1, fee_bps, token0_to1) == 0,
        spec_quote_v2(amount_in, 0, reserve1, fee_bps, token0_to1) == 0,
        spec_quote_v2(amount_in, reserve0, 0, fee_bps, token0_to1) == 0,
{
}

/// A zero fee rate charges nothing, and the full ten thousand basis points
/// return the principal exactly, as long as the scaled product stays
/// representable.
pub proof fn lemma_fee_from_bps_bounds(a: nat)
    ensures
        spec_fee_from_bps(a, 0) == 0,
        a * 10000 <= u256_max() ==> spec_fee_from_bps(a, 10000) == a,
{
    assert(a * 0 == 0) by (nonlinear_arith);
    if a * 10000 <= u256_max() {
        assert(clamp256(a * 10000) == a * 10000);
        lemma_div_multiples_vanish(a as int, 10000);
        assert(10000 * a == a * 10000) by (nonlinear_arith);
    }
}

/// The decimal rendering of ten thousand.
proof fn lemma_dec_string_10000()
    ensures
        spec_dec_string(10000) == seq!['1', '0', '0', '0', '0'],
{
    reveal_with_fuel(spec_dec_string, 6);
    assert(spec_dec_string(10000) =~= seq!['1', '0', '0', '0', '0']);
}

/// The signed edge of any output over zero cost is the plain zero string.
pub proof fn lemma_signed_edge_bps_zero_cost(x: nat)
    ensures
        spec_signed_edge_bps(x, 0) == seq!['0'],
{
}

/// Break-even renders as `"0"`, a doubling as `"10000"`, and a total loss
/// as `"-10000"`, for any positive cost whose ten-thousandfold is still
/// representable.
pub proof fn lemma_signed_edge_bps_identities(x: nat)
    requires
        x > 0,
        x * 10000 <= u256_max(),
    ensures
        spec_signed_edge_bps(x, x) == seq!['0'],
        spec_signed_edge_bps(2 * x, x) == seq!['1', '0', '0', '0', '0'],
        spec_signed_edge_bps(0, x) == seq!['-', '1', '0', '0', '0', '0'],
{
    lemma_dec_string_10000();
    assert(spec_signed_edge_bps(x, x) == seq!['0']) by {
        assert(clamp256((x - x) as nat * 10000) == 0) by {
            assert((x - x) as nat * 10000 == 0) by (nonlinear_arith);
        }
        assert(clamp256(0) / x == 0) by {
            vstd::arithmetic::div_mod::lemma_div_of0(x as int);
        }
        reveal_with_fuel(spec_dec_string, 2);
        assert(spec_dec_string(0) =~= seq!['0']);
    }
    assert(clamp256((2 * x - x) as nat * 10000) / x == 10000) by {
        assert((2 * x - x) as nat * 10000 == x * 10000) by (nonlinear_arith);
        assert(clamp256(x * 10000) == x * 10000);
        lemma_div_multiples_vanish(10000, x as int);
        assert(x * 10000 == 10000 * x) by (nonlinear_arith);
    }
    assert(clamp256((x - 0) as nat * 10000) / x == 10000) by {
        assert((x - 0) as nat * 10000 == x * 10000) by (nonlinear_arith);
        assert(clamp256(x * 10000) == x * 10000);
        lemma_div_multiples_vanish(10000, x as int);
        assert(x * 10000 == 10000 * x) by (nonlinear_arith);
    }
    assert(spec_signed_edge_bps(0, x) =~= seq!['-', '1', '0', '0', '0', '0']);
}

} // verus!
