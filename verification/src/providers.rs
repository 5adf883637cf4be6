//! Transport-side helpers that are pure arithmetic: the reconnection
//! backoff schedule.

use vstd::prelude::*;

verus! {

/// The doubling factor for a reconnection attempt, capped at ten
/// doublings.
pub open spec fn spec_backoff_factor(attempt: u32) -> nat {
    let step = if attempt >= 1 {
        (attempt - 1) as nat
    } else {
        0
    };
    let capped = if step > 10 {
        10
    } else {
        step
    };
    if capped == 0 {
        1
    } else if capped == 1 {
        2
    } else if capped == 2 {
        4
    } else if capped == 3 {
        8
    } else if capped == 4 {
        16
    } else if capped == 5 {
        32
    } else if capped == 6 {
        64
    } else if capped == 7 {
        128
    } else if capped == 8 {
        256
    } else if capped == 9 {
        512
    } else {
        1024
    }
}

/// How long to wait before reconnection attempt `attempt`, in
/// milliseconds: exponential from the initial delay, doubling per
/// attempt up to ten times, and never beyond the larger of the two
/// configured bounds.
pub fn reconnect_backoff(initial_ms: u64, max_ms: u64, attempt: u32) -> (delay_ms: u64)
    ensures
        ({
            let cap = if max_ms >= initial_ms {
                max_ms
            } else {
                initial_ms
            };
            let raw = (initial_ms * spec_backoff_factor(attempt)) as nat;
            delay_ms == if raw > u64::MAX {
                cap as nat
            } else if raw > cap {
                cap as nat
            } else {
                raw
            }
        }),
{
    let step: u32 = if attempt >= 1 {
        let s = attempt - 1;
        if s > 10 {
            10
        } else {
            s
        }
    } else {
        0
    };
    let factor: u64 = if step == 0 {
        1
    } else if step == 1 {
        2
    } else if step == 2 {
        4
    } else if step == 3 {
        8
    } else if step == 4 {
        16
    } else if step == 5 {
        32
    } else if step == 6 {
        64
    } else if step == 7 {
        128
    } else if step == 8 {
        256
    } else if step == 9 {
        512
    } else {
        1024
    };
    let cap: u64 = if max_ms >= initial_ms {
        max_ms
    } else {
        initial_ms
    };
    // saturating multiply within u64
    let product: u64 = if factor != 0 && initial_ms > u64::MAX / factor {
        u64::MAX
    } else {
        initial_ms * factor
    };
    proof {
        let m = u64::MAX as int;
        if initial_ms > m / (factor as int) {
            vstd::arithmetic::div_mod::lemma_fundamental_div_mod(m, factor as int);
            assert(initial_ms * factor >= (m / factor as int + 1) * factor) by (nonlinear_arith)
                requires
                    initial_ms >= m / (factor as int) + 1,
                    factor >= 1,
            ;
            assert((m / factor as int + 1) * factor == (m / factor as int) * factor + factor);
            assert(m - m % (factor as int) + factor > m);
        } else {
            assert(initial_ms * factor <= (m / factor as int) * factor) by (nonlinear_arith)
                requires
                    initial_ms <= m / (factor as int),
                    factor >= 1,
            ;
            vstd::arithmetic::div_mod::lemma_fundamental_div_mod(m, factor as int);
        }
    }
    if product > cap {
        cap
    } else {
        product
    }
}

} // verus!
