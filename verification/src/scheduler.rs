//! The per-block evaluation decisions of the polling loop: new-block
//! detection, the staleness gate, per-size cost derivation, the
//! classification ladder, summary cadence and the stop condition.
//!
//! The loop's outside work — sleeping, RPC calls, printing — stays with
//! the caller, which feeds every observed value in as an argument.

use vstd::prelude::*;
use crate::u256::{U256, clamp256};
use crate::quoting::{fee_from_bps, quote_v2_exact_in, spec_fee_from_bps, spec_quote_v2};
use crate::row::spec_total_cost;

verus! {

use vstd::string::StringExecFns;

/// Block cadence state of one run.
pub struct ShadowScheduler {
    pub last_block: Option<u64>,
    pub processed_blocks: u64,
}

impl ShadowScheduler {
    pub fn new() -> (r: ShadowScheduler)
        ensures
            r.last_block is None,
            r.processed_blocks == 0,
    {
        ShadowScheduler { last_block: None, processed_blocks: 0 }
    }

    /// Take note of a polled block number. A repeat of the last block is
    /// no work; a new one becomes the last block and counts as processed.
    pub fn observe_block_number(&mut self, block: u64) -> (is_new: bool)
        ensures
            is_new == (old(self).last_block != Some(block)),
            is_new ==> final(self).last_block == Some(block) && final(self).processed_blocks
                == (if old(self).processed_blocks < u64::MAX {
                old(self).processed_blocks + 1
            } else {
                u64::MAX as int
            }),
            !is_new ==> *final(self) == *old(self),
    {
        let same: bool = match self.last_block {
            Some(b) => b == block,
            None => false,
        };
        if same {
            false
        } else {
            self.last_block = Some(block);
            if self.processed_blocks < u64::MAX {
                self.processed_blocks = self.processed_blocks + 1;
            }
            true
        }
    }

    /// The block number the final summary reports: the last one seen, or
    /// zero when none ever was.
    pub fn latest_block(&self) -> (r: u64)
        ensures
            r == (match self.last_block {
                Some(b) => b,
                None => 0u64,
            }),
    {
        match self.last_block {
            Some(b) => b,
            None => 0,
        }
    }

    /// Whether this block closes a summary period.
    pub fn should_emit_summary(&self, summary_every_blocks: u64) -> (r: bool)
        requires
            summary_every_blocks >= 1,
        ensures
            r == (self.processed_blocks % summary_every_blocks == 0),
    {
        self.processed_blocks % summary_every_blocks == 0
    }

    /// Whether the configured block budget, if any, is spent.
    pub fn reached_max_blocks(&self, max_blocks: &Option<u64>) -> (r: bool)
        ensures
            r == (match *max_blocks {
                Some(limit) => self.processed_blocks >= limit,
                None => false,
            }),
    {
        match max_blocks {
            Some(limit) => self.processed_blocks >= *limit,
            None => false,
        }
    }
}

/// Seconds between the wall clock and the block timestamp, zero when the
/// clock stands behind the block.
pub fn block_age_secs(now_unix: u64, block_timestamp: u64) -> (r: u64)
    ensures
        r == if now_unix >= block_timestamp {
            now_unix - block_timestamp
        } else {
            0int
        },
{
    if now_unix >= block_timestamp {
        now_unix - block_timestamp
    } else {
        0
    }
}

/// The staleness gate: a block older than the configured bound is not
/// evaluated.
pub fn is_stale(block_age_secs: u64, max_block_age_secs: u64) -> (r: bool)
    ensures
        r == (block_age_secs > max_block_age_secs),
{
    block_age_secs > max_block_age_secs
}

/// The polling interval, floored at 250 milliseconds.
pub fn poll_interval_ms(configured_ms: u64) -> (r: u64)
    ensures
        r == if configured_ms >= 250 {
            configured_ms as int
        } else {
            250int
        },
{
    if configured_ms >= 250 {
        configured_ms
    } else {
        250
    }
}

/// The derived amounts for one input size at one block.
pub struct SizePrep {
    pub gas_cost: U256,
    pub flash_fee: U256,
    pub v2_out_mid: U256,
}

/// Derive gas cost, flash fee and the near-leg output for one input
/// size, all with saturating arithmetic.
pub fn prepare_size(
    input: &U256,
    gas_price: &U256,
    gas_units_estimate: u64,
    flash_loan_fee_bps: u64,
    reserve0: &U256,
    reserve1: &U256,
    v2_fee_bps: u64,
    v2_token0_to1: bool,
) -> (r: SizePrep)
    ensures
        r.gas_cost@ == clamp256((gas_price@ * gas_units_estimate) as nat),
        r.flash_fee@ == spec_fee_from_bps(input@, flash_loan_fee_bps as nat),
        r.v2_out_mid@ == spec_quote_v2(
            input@,
            reserve0@,
            reserve1@,
            v2_fee_bps as nat,
            v2_token0_to1,
        ),
{
    let gas_cost = gas_price.mul_sat(&U256::from_u64(gas_units_estimate));
    let flash_fee = fee_from_bps(input, flash_loan_fee_bps);
    let v2_out_mid = quote_v2_exact_in(input, reserve0, reserve1, v2_fee_bps, v2_token0_to1);
    SizePrep { gas_cost, flash_fee, v2_out_mid }
}

/// Why a size was skipped, or that it would have traded.
#[derive(Clone, Copy, PartialEq, Eq, Structural, Debug)]
pub enum Classification {
    GasTooHigh,
    BelowMinProfit,
    EdgeAboveThreshold,
}

/// The classification ladder, first match winning: gas price over the
/// cap, then output not exceeding cost, then net under the minimum
/// profit, and otherwise a trade.
pub open spec fn spec_classify(
    gas_price: nat,
    max_gas_price: nat,
    input: nat,
    flash_fee: nat,
    gas_cost: nat,
    v3_out: nat,
    min_profit: nat,
) -> Classification {
    let total = spec_total_cost(input, flash_fee, gas_cost);
    if gas_price > max_gas_price {
        Classification::GasTooHigh
    } else if v3_out <= total {
        Classification::BelowMinProfit
    } else if v3_out - total < min_profit {
        Classification::BelowMinProfit
    } else {
        Classification::EdgeAboveThreshold
    }
}

/// Classify one evaluated size.
pub fn classify(
    gas_price: &U256,
    max_gas_price: &U256,
    input: &U256,
    flash_fee: &U256,
    gas_cost: &U256,
    v3_out: &U256,
    min_profit: &U256,
) -> (r: Classification)
    ensures
        r == spec_classify(
            gas_price@,
            max_gas_price@,
            input@,
            flash_fee@,
            gas_cost@,
            v3_out@,
            min_profit@,
        ),
{
    if max_gas_price.lt(gas_price) {
        return Classification::GasTooHigh;
    }
    let total_cost = input.add_sat(flash_fee).add_sat(gas_cost);
    proof {
        assert(total_cost@ == spec_total_cost(input@, flash_fee@, gas_cost@));
    }
    if v3_out.le(&total_cost) {
        return Classification::BelowMinProfit;
    }
    let net = v3_out.sub_exact(&total_cost);
    if net.lt(min_profit) {
        return Classification::BelowMinProfit;
    }
    Classification::EdgeAboveThreshold
}

impl Classification {
    /// The decision field of the emitted row.
    pub fn decision_str(&self) -> (r: String)
        ensures
            self is EdgeAboveThreshold ==> r@ == "would_trade"@,
            !(self is EdgeAboveThreshold) ==> r@ == "would_skip"@,
    {
        match self {
            Classification::EdgeAboveThreshold => String::from_str("would_trade"),
            _ => String::from_str("would_skip"),
        }
    }

    /// The reason field of the emitted row.
    pub fn reason_str(&self) -> (r: String)
        ensures
            self is GasTooHigh ==> r@ == "gas_too_high"@,
            self is BelowMinProfit ==> r@ == "below_min_profit"@,
            self is EdgeAboveThreshold ==> r@ == "edge_above_threshold"@,
    {
        match self {
            Classification::GasTooHigh => String::from_str("gas_too_high"),
            Classification::BelowMinProfit => String::from_str("below_min_profit"),
            Classification::EdgeAboveThreshold => String::from_str("edge_above_threshold"),
        }
    }
}

} // verus!
