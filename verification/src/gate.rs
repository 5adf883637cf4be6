//! Rate limiting for noisy repeated error logs: at most one line per
//! interval, with a count of what was suppressed in between.
//!
//! The limiter itself decides and builds the line; reading the monotonic
//! clock and writing to the error stream stay with the caller, which hands
//! in the current time in milliseconds.

use vstd::prelude::*;
use crate::u256::{U256, spec_dec_string};

verus! {

use vstd::arithmetic::div_mod::lemma_div_is_ordered;
use vstd::arithmetic::div_mod::lemma_div_plus_one;
use vstd::string::StringExecFns;

pub struct ErrorLogGate {
    /// The minimum spacing between emitted lines, in milliseconds.
    pub min_interval_ms: u64,
    /// When a line last went out, on the caller's monotonic clock; a
    /// fresh limiter has emitted nothing.
    pub last_emit_ms: Option<u64>,
    /// How many lines were swallowed since the last emission.
    pub suppressed: u64,
}

/// Milliseconds elapsed from `last` to `now`, zero if the clock stands
/// before `last`.
pub open spec fn spec_elapsed(last: u64, now: u64) -> nat {
    if now >= last {
        (now - last) as nat
    } else {
        0
    }
}

/// Whether a call at `now` goes out: always on a fresh limiter, else
/// only once the interval has fully elapsed.
pub open spec fn spec_gate_opens(last_emit_ms: Option<u64>, min_interval_ms: u64, now: u64) -> bool {
    match last_emit_ms {
        None => true,
        Some(last) => spec_elapsed(last, now) >= min_interval_ms,
    }
}

/// The line emitted for `prefix` and `details` with `suppressed` lines
/// swallowed beforehand.
pub open spec fn spec_gate_line(prefix: Seq<char>, details: Seq<char>, suppressed: nat) -> Seq<
    char,
> {
    let base = prefix + ": "@ + details;
    if suppressed > 0 {
        base + " (suppressed "@ + spec_dec_string(suppressed) + " similar log lines)"@
    } else {
        base
    }
}

/// The line a flush emits for `suppressed` swallowed lines.
pub open spec fn spec_flush_line(prefix: Seq<char>, suppressed: nat) -> Seq<char> {
    prefix + ": suppressed "@ + spec_dec_string(suppressed) + " similar log lines"@
}

impl ErrorLogGate {
    pub fn new(min_interval_ms: u64) -> (r: ErrorLogGate)
        ensures
            r.min_interval_ms == min_interval_ms,
            r.last_emit_ms is None,
            r.suppressed == 0,
    {
        ErrorLogGate { min_interval_ms, last_emit_ms: None, suppressed: 0 }
    }

    /// Offer a log line at time `now_ms`. Within the quiet interval the
    /// line is swallowed and counted, saturating; otherwise the caller
    /// receives the line to emit, carrying the count of lines swallowed
    /// since the previous emission.
    pub fn log(&mut self, now_ms: u64, prefix: &str, details: &str) -> (line: Option<String>)
        ensures
            final(self).min_interval_ms == old(self).min_interval_ms,
            spec_gate_opens(old(self).last_emit_ms, old(self).min_interval_ms, now_ms) ==> ({
                &&& line matches Some(l) && l@ == spec_gate_line(
                    prefix@,
                    details@,
                    old(self).suppressed as nat,
                )
                &&& final(self).last_emit_ms == Some(now_ms)
                &&& final(self).suppressed == 0
            }),
            !spec_gate_opens(old(self).last_emit_ms, old(self).min_interval_ms, now_ms) ==> ({
                &&& line is None
                &&& final(self).last_emit_ms == old(self).last_emit_ms
                &&& final(self).suppressed == if old(self).suppressed < u64::MAX {
                    old(self).suppressed + 1
                } else {
                    u64::MAX as int
                }
            }),
    {
        let opens: bool = match self.last_emit_ms {
            None => true,
            Some(last) => {
                let elapsed: u64 = if now_ms >= last {
                    now_ms - last
                } else {
                    0
                };
                elapsed >= self.min_interval_ms
            },
        };
        if opens {
            let mut l = String::new();
            l.append(prefix);
            l.append(": ");
            l.append(details);
            if self.suppressed > 0 {
                let count = U256::from_u64(self.suppressed).to_dec_string();
                l.append(" (suppressed ");
                l.append(count.as_str());
                l.append(" similar log lines)");
            }
            self.last_emit_ms = Some(now_ms);
            self.suppressed = 0;
            Some(l)
        } else {
            if self.suppressed < u64::MAX {
                self.suppressed = self.suppressed + 1;
            }
            None
        }
    }

    /// Report what is still swallowed, so that no suppression count is
    /// lost at shutdown.
    pub fn flush(&mut self, prefix: &str) -> (line: Option<String>)
        ensures
            final(self).min_interval_ms == old(self).min_interval_ms,
            final(self).last_emit_ms == old(self).last_emit_ms,
            final(self).suppressed == 0,
            old(self).suppressed > 0 ==> (line matches Some(l) && l@ == spec_flush_line(
                prefix@,
                old(self).suppressed as nat,
            )),
            old(self).suppressed == 0 ==> line is None,
    {
        if self.suppressed > 0 {
            let mut l = String::new();
            l.append(prefix);
            l.append(": suppressed ");
            let count = U256::from_u64(self.suppressed).to_dec_string();
            l.append(count.as_str());
            l.append(" similar log lines");
            self.suppressed = 0;
            Some(l)
        } else {
            None
        }
    }
}

/// How many lines a gate with spacing `min_interval_ms` emits over the
/// call times in `times`, starting from `last_emit_ms`.
pub open spec fn spec_gate_emit_count(
    last_emit_ms: Option<u64>,
    min_interval_ms: u64,
    times: Seq<u64>,
) -> nat
    decreases times.len(),
{
    if times.len() == 0 {
        0
    } else {
        if spec_gate_opens(last_emit_ms, min_interval_ms, times[0]) {
            1 + spec_gate_emit_count(Some(times[0]), min_interval_ms, times.drop_first())
        } else {
            spec_gate_emit_count(last_emit_ms, min_interval_ms, times.drop_first())
        }
    }
}

/// The limiter's state after a sequence of calls: swallowed calls add one
/// to the suppression count and leave the emission time alone; an
/// emission resets the count and stamps its own time.
pub open spec fn spec_gate_run_state(
    last_emit_ms: Option<u64>,
    suppressed: nat,
    min_interval_ms: u64,
    times: Seq<u64>,
) -> (Option<u64>, nat)
    decreases times.len(),
{
    if times.len() == 0 {
        (last_emit_ms, suppressed)
    } else if spec_gate_opens(last_emit_ms, min_interval_ms, times[0]) {
        spec_gate_run_state(Some(times[0]), 0, min_interval_ms, times.drop_first())
    } else {
        spec_gate_run_state(last_emit_ms, (suppressed + 1) as nat, min_interval_ms, times.drop_first())
    }
}

/// As long as no call gets through, each call adds exactly one to the
/// suppression count and the last emission time stands. So when call `k`
/// is the first to emit after an emission (or after construction, where
/// the count starts at zero), the count it reports equals `k`: the number
/// of calls since the previous emission, minus the emitting one.
pub proof fn lemma_gate_suppressed_counts(
    last_emit_ms: Option<u64>,
    suppressed: nat,
    min_interval_ms: u64,
    times: Seq<u64>,
    k: int,
)
    requires
        0 <= k <= times.len(),
        forall|j: int| 0 <= j < k ==> !spec_gate_opens(last_emit_ms, min_interval_ms, times[j]),
    ensures
        spec_gate_run_state(last_emit_ms, suppressed, min_interval_ms, times.take(k)) == (
        last_emit_ms,
        (suppressed + k) as nat,
        ),
    decreases k,
{
    if k > 0 {
        let rest = times.drop_first();
        assert(!spec_gate_opens(last_emit_ms, min_interval_ms, times[0]));
        assert(times.take(k)[0] == times[0]);
        assert(times.take(k).drop_first() =~= rest.take(k - 1));
        assert(forall|j: int|
            0 <= j < k - 1 ==> !spec_gate_opens(last_emit_ms, min_interval_ms, #[trigger] rest[j]));
        lemma_gate_suppressed_counts(
            last_emit_ms,
            (suppressed + 1) as nat,
            min_interval_ms,
            rest,
            k - 1,
        );
    } else {
        assert(times.take(0) =~= Seq::<u64>::empty());
    }
}

/// After an emission at `t0`, a gate lets through at most one line per
/// full interval that elapses up to the last call.
proof fn lemma_gate_rate_from(t0: u64, m: u64, times: Seq<u64>)
    requires
        m > 0,
        forall|i: int, j: int| 0 <= i <= j < times.len() ==> times[i] <= times[j],
    ensures
        times.len() > 0 ==> spec_gate_emit_count(Some(t0), m, times) <= spec_elapsed(
            t0,
            times.last(),
        ) / (m as nat),
        times.len() == 0 ==> spec_gate_emit_count(Some(t0), m, times) == 0,
    decreases times.len(),
{
    if times.len() > 0 {
        let now = times[0];
        let rest = times.drop_first();
        let last = times.last();
        assert(forall|i: int, j: int| 0 <= i <= j < rest.len() ==> rest[i] <= rest[j]);
        if spec_gate_opens(Some(t0), m, now) {
            // the interval elapsed in full before this emission
            assert(now >= t0 + m);
            lemma_gate_rate_from(now, m, rest);
            if rest.len() > 0 {
                assert(rest.last() == last);
                assert(now <= last);
                // one interval is spent reaching `now`; the rest bounds the tail
                assert(spec_elapsed(now, last) + m <= spec_elapsed(t0, last));
                lemma_div_is_ordered(
                    (spec_elapsed(now, last) + m) as int,
                    spec_elapsed(t0, last) as int,
                    m as int,
                );
                lemma_div_plus_one(spec_elapsed(now, last) as int, m as int);
            } else {
                assert(now == last);
                assert(spec_elapsed(t0, last) / (m as nat) >= 1) by {
                    lemma_div_is_ordered(m as int, spec_elapsed(t0, last) as int, m as int);
                    assert(m as int / m as int == 1) by {
                        vstd::arithmetic::div_mod::lemma_div_by_self(m as int);
                    }
                }
            }
        } else {
            lemma_gate_rate_from(t0, m, rest);
            if rest.len() > 0 {
                assert(rest.last() == last);
                lemma_div_is_ordered(
                    spec_elapsed(t0, rest.last()) as int,
                    spec_elapsed(t0, last) as int,
                    m as int,
                );
            }
        }
    }
}

/// A fresh gate emits at most `1 + elapsed / min_interval` lines over any
/// monotone sequence of calls: the first call always passes, and afterwards
/// each emission costs one full interval of the time that elapses between
/// the first and the last call.
pub proof fn lemma_gate_rate(m: u64, times: Seq<u64>)
    requires
        m > 0,
        times.len() > 0,
        forall|i: int, j: int| 0 <= i <= j < times.len() ==> times[i] <= times[j],
    ensures
        spec_gate_emit_count(None, m, times) <= 1 + spec_elapsed(times[0], times.last()) / (
        m as nat),
{
    let rest = times.drop_first();
    assert(spec_gate_opens(None, m, times[0]));
    assert(forall|i: int, j: int| 0 <= i <= j < rest.len() ==> rest[i] <= rest[j]);
    lemma_gate_rate_from(times[0], m, rest);
    if rest.len() > 0 {
        assert(rest.last() == times.last());
    } else {
        assert(times.last() == times[0]);
    }
}

} // verus!
