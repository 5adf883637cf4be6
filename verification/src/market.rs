//! The listened markets: a venue kind, its pool, and the token pair with
//! display metadata.

use vstd::prelude::*;
use crate::route::Addr;

verus! {

/// Which venue family a market belongs to.
#[derive(Clone, Debug)]
pub enum MarketKind {
    V2Sync,
    V3Swap,
}

/// One pool and its token pair.
#[derive(Clone, Debug)]
pub struct Market {
    pub kind: MarketKind,
    pub pool: Addr,
    pub token0: Addr,
    pub token1: Addr,
    pub token0_symbol: String,
    pub token1_symbol: String,
    pub token0_decimals: u8,
    pub token1_decimals: u8,
}

impl Market {
    pub fn new(
        kind: MarketKind,
        pool: Addr,
        token0: Addr,
        token1: Addr,
        token0_symbol: String,
        token1_symbol: String,
        token0_decimals: u8,
        token1_decimals: u8,
    ) -> (r: Market)
        ensures
            r.pool == pool,
            r.token0 == token0,
            r.token1 == token1,
            r.token0_symbol@ == token0_symbol@,
            r.token1_symbol@ == token1_symbol@,
            r.token0_decimals == token0_decimals,
            r.token1_decimals == token1_decimals,
    {
        Market {
            kind,
            pool,
            token0,
            token1,
            token0_symbol,
            token1_symbol,
            token0_decimals,
            token1_decimals,
        }
    }
}

} // verus!
