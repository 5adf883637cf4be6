//! Decision and summary rows, rendered as single JSON lines with a fully
//! specified layout: fixed key order, decimal strings for the 256-bit
//! amounts, and standard JSON string escaping.

use vstd::prelude::*;
use crate::u256::{U256, clamp256, spec_dec_string};
use crate::quoting::{signed_edge_bps, spec_signed_edge_bps};
use crate::stats::{ShadowStats, ReasonCount, wf_counts, wf_stats, spec_count_of, spec_reason_prefix};
use crate::text::{digit_char, dec_digit_char};

verus! {

use vstd::string::StringExecFns;

/// The hexadecimal digit character for a value below sixteen.
pub open spec fn spec_hex_nibble(n: nat) -> char {
    if n < 10 {
        dec_digit_char(n)
    } else if n == 10 {
        'a'
    } else if n == 11 {
        'b'
    } else if n == 12 {
        'c'
    } else if n == 13 {
        'd'
    } else if n == 14 {
        'e'
    } else {
        'f'
    }
}

/// How one character appears inside a JSON string literal.
pub open spec fn spec_esc_char(c: char) -> Seq<char> {
    if c == '"' {
        seq!['\\', '"']
    } else if c == '\\' {
        seq!['\\', '\\']
    } else if c == '\u{8}' {
        seq!['\\', 'b']
    } else if c == '\t' {
        seq!['\\', 't']
    } else if c == '\n' {
        seq!['\\', 'n']
    } else if c == '\u{c}' {
        seq!['\\', 'f']
    } else if c == '\r' {
        seq!['\\', 'r']
    } else if 0 <= (c as int) < 0x20 {
        seq!['\\', 'u', '0', '0', spec_hex_nibble(((c as int) / 16) as nat), spec_hex_nibble(
            ((c as int) % 16) as nat,
        )]
    } else {
        seq![c]
    }
}

/// A whole string, escaped for JSON.
pub open spec fn spec_json_escape(s: Seq<char>) -> Seq<char>
    decreases s.len(),
{
    if s.len() == 0 {
        Seq::empty()
    } else {
        spec_esc_char(s[0]) + spec_json_escape(s.drop_first())
    }
}

/// Escaping distributes over appending one character at the end.
proof fn lemma_json_escape_push(s: Seq<char>, c: char)
    ensures
        spec_json_escape(s.push(c)) == spec_json_escape(s) + spec_esc_char(c),
    decreases s.len(),
{
    if s.len() == 0 {
        assert(s.push(c)[0] == c);
        assert(s.push(c).drop_first() =~= Seq::<char>::empty());
        assert(spec_json_escape(s.push(c)) == spec_esc_char(c) + spec_json_escape(
            Seq::<char>::empty(),
        ));
        assert(spec_esc_char(c) + Seq::<char>::empty() =~= spec_esc_char(c));
        assert(spec_json_escape(s) + spec_esc_char(c) =~= spec_esc_char(c));
    } else {
        assert(s.push(c)[0] == s[0]);
        assert(s.push(c).drop_first() =~= s.drop_first().push(c));
        lemma_json_escape_push(s.drop_first(), c);
        assert(spec_esc_char(s[0]) + (spec_json_escape(s.drop_first()) + spec_esc_char(c))
            =~= (spec_esc_char(s[0]) + spec_json_escape(s.drop_first())) + spec_esc_char(c));
    }
}

fn hex_nibble(n: u8) -> (c: char)
    requires
        n < 16,
    ensures
        c == spec_hex_nibble(n as nat),
{
    if n < 10 {
        digit_char(n)
    } else if n == 10 {
        'a'
    } else if n == 11 {
        'b'
    } else if n == 12 {
        'c'
    } else if n == 13 {
        'd'
    } else if n == 14 {
        'e'
    } else {
        'f'
    }
}

/// Whether a character sits below the space character, where JSON asks
/// for an escape.
fn char_is_control(c: char) -> (r: bool)
    ensures
        r == (0 <= (c as int) < 0x20),
{
    let nul: char = '\u{0}';
    let space: char = ' ';
    nul <= c && c < space
}

/// Append `s` to `out`, escaped for a JSON string literal.
fn push_json_escaped(out: &mut String, s: &str)
    ensures
        final(out)@ == old(out)@ + spec_json_escape(s@),
{
    let chars = crate::text::str_chars(s);
    let mut i: usize = 0;
    while i < chars.len()
        invariant
            chars@ == s@,
            i <= chars@.len(),
            out@ == old(out)@ + spec_json_escape(s@.take(i as int)),
        decreases chars.len() - i,
    {
        let c = chars[i];
        if c == '"' {
            out.push('\\');
            out.push('"');
        } else if c == '\\' {
            out.push('\\');
            out.push('\\');
        } else if c == '\u{8}' {
            out.push('\\');
            out.push('b');
        } else if c == '\t' {
            out.push('\\');
            out.push('t');
        } else if c == '\n' {
            out.push('\\');
            out.push('n');
        } else if c == '\u{c}' {
            out.push('\\');
            out.push('f');
        } else if c == '\r' {
            out.push('\\');
            out.push('r');
        } else if char_is_control(c) {
            out.push('\\');
            out.push('u');
            out.push('0');
            out.push('0');
            let code: u8 = c as u8;
            proof {
                assert(code == c as int);
            }
            out.push(hex_nibble(code / 16));
            out.push(hex_nibble(code % 16));
        } else {
            out.push(c);
        }
        proof {
            lemma_json_escape_push(s@.take(i as int), s@[i as int]);
            assert(s@.take(i + 1) =~= s@.take(i as int).push(s@[i as int]));
            assert(out@ =~= old(out)@ + spec_json_escape(s@.take(i + 1)));
        }
        i = i + 1;
    }
    proof {
        assert(s@.take(i as int) =~= s@);
    }
}

/// Append a quoted, escaped JSON string value.
fn push_json_string(out: &mut String, s: &str)
    ensures
        final(out)@ == old(out)@ + spec_json_string(s@),
{
    out.push('"');
    push_json_escaped(out, s);
    out.push('"');
    proof {
        assert(out@ =~= old(out)@ + spec_json_string(s@));
    }
}

/// A quoted, escaped JSON string literal.
pub open spec fn spec_json_string(s: Seq<char>) -> Seq<char> {
    seq!['"'] + spec_json_escape(s) + seq!['"']
}

/// Append a `u64` as a JSON number.
fn push_json_u64(out: &mut String, v: u64)
    ensures
        final(out)@ == old(out)@ + spec_dec_string(v as nat),
{
    let s = U256::from_u64(v).to_dec_string();
    out.append(s.as_str());
}

/// One decision row, one JSON object per line on the primary output.
pub struct ShadowDecisionLog {
    pub run_id: String,
    pub ts_unix_ms: u64,
    pub network: String,
    pub route: String,
    pub block: u64,
    pub block_age_secs: u64,
    pub input_wei: String,
    pub gas_price_wei: String,
    pub gas_cost_wei: String,
    pub flash_fee_wei: String,
    pub total_cost_wei: String,
    pub v2_out_mid_wei: String,
    pub v3_out_wei: String,
    pub net_wei: String,
    pub edge_bps: String,
    pub v3_quote_latency_ms: u64,
    pub decision: String,
    pub reason: String,
}

/// The JSON line for a decision row, field for field in declaration
/// order.
pub open spec fn spec_row_json(r: &ShadowDecisionLog) -> Seq<char> {
    "{\"run_id\":"@ + spec_json_string(r.run_id@) + ",\"ts_unix_ms\":"@ + spec_dec_string(
        r.ts_unix_ms as nat,
    ) + ",\"network\":"@ + spec_json_string(r.network@) + ",\"route\":"@ + spec_json_string(
        r.route@,
    ) + ",\"block\":"@ + spec_dec_string(r.block as nat) + ",\"block_age_secs\":"@
        + spec_dec_string(r.block_age_secs as nat) + ",\"input_wei\":"@ + spec_json_string(
        r.input_wei@,
    ) + ",\"gas_price_wei\":"@ + spec_json_string(r.gas_price_wei@) + ",\"gas_cost_wei\":"@
        + spec_json_string(r.gas_cost_wei@) + ",\"flash_fee_wei\":"@ + spec_json_string(
        r.flash_fee_wei@,
    ) + ",\"total_cost_wei\":"@ + spec_json_string(r.total_cost_wei@) + ",\"v2_out_mid_wei\":"@
        + spec_json_string(r.v2_out_mid_wei@) + ",\"v3_out_wei\":"@ + spec_json_string(
        r.v3_out_wei@,
    ) + ",\"net_wei\":"@ + spec_json_string(r.net_wei@) + ",\"edge_bps\":"@ + spec_json_string(
        r.edge_bps@,
    ) + ",\"v3_quote_latency_ms\":"@ + spec_dec_string(r.v3_quote_latency_ms as nat)
        + ",\"decision\":"@ + spec_json_string(r.decision@) + ",\"reason\":"@ + spec_json_string(
        r.reason@,
    ) + "}"@
}

/// The row `build_row` derives from an evaluation context: every amount
/// in decimal, cost and net derived from the context, the edge signed.
pub open spec fn spec_built_row(
    r: &ShadowDecisionLog,
    ctx: &EmitContext,
    ts_unix_ms: u64,
    decision: Seq<char>,
    reason: Seq<char>,
) -> bool {
    let total = spec_total_cost(ctx.input@, ctx.flash_fee@, ctx.gas_cost@);
    &&& r.run_id@ == ctx.run_id@
    &&& r.ts_unix_ms == ts_unix_ms
    &&& r.network@ == ctx.network@
    &&& r.route@ == ctx.route@
    &&& r.block == ctx.block
    &&& r.block_age_secs == ctx.block_age_secs
    &&& r.input_wei@ == spec_dec_string(ctx.input@)
    &&& r.gas_price_wei@ == spec_dec_string(ctx.gas_price@)
    &&& r.gas_cost_wei@ == spec_dec_string(ctx.gas_cost@)
    &&& r.flash_fee_wei@ == spec_dec_string(ctx.flash_fee@)
    &&& r.total_cost_wei@ == spec_dec_string(total)
    &&& r.v2_out_mid_wei@ == spec_dec_string(ctx.v2_out_mid@)
    &&& r.v3_out_wei@ == spec_dec_string(ctx.v3_out@)
    &&& r.net_wei@ == spec_dec_string(spec_net(ctx.v3_out@, total))
    &&& r.edge_bps@ == spec_signed_edge_bps(ctx.v3_out@, total)
    &&& r.v3_quote_latency_ms == ctx.v3_quote_latency_ms
    &&& r.decision@ == decision
    &&& r.reason@ == reason
}

/// Render a decision row as its JSON line.
pub fn row_json(r: &ShadowDecisionLog) -> (line: String)
    ensures
        line@ == spec_row_json(r),
{
    let mut out = String::new();
    out.append("{\"run_id\":");
    push_json_string(&mut out, r.run_id.as_str());
    out.append(",\"ts_unix_ms\":");
    push_json_u64(&mut out, r.ts_unix_ms);
    out.append(",\"network\":");
    push_json_string(&mut out, r.network.as_str());
    out.append(",\"route\":");
    push_json_string(&mut out, r.route.as_str());
    out.append(",\"block\":");
    push_json_u64(&mut out, r.block);
    out.append(",\"block_age_secs\":");
    push_json_u64(&mut out, r.block_age_secs);
    out.append(",\"input_wei\":");
    push_json_string(&mut out, r.input_wei.as_str());
    out.append(",\"gas_price_wei\":");
    push_json_string(&mut out, r.gas_price_wei.as_str());
    out.append(",\"gas_cost_wei\":");
    push_json_string(&mut out, r.gas_cost_wei.as_str());
    out.append(",\"flash_fee_wei\":");
    push_json_string(&mut out, r.flash_fee_wei.as_str());
    out.append(",\"total_cost_wei\":");
    push_json_string(&mut out, r.total_cost_wei.as_str());
    out.append(",\"v2_out_mid_wei\":");
    push_json_string(&mut out, r.v2_out_mid_wei.as_str());
    out.append(",\"v3_out_wei\":");
    push_json_string(&mut out, r.v3_out_wei.as_str());
    out.append(",\"net_wei\":");
    push_json_string(&mut out, r.net_wei.as_str());
    out.append(",\"edge_bps\":");
    push_json_string(&mut out, r.edge_bps.as_str());
    out.append(",\"v3_quote_latency_ms\":");
    push_json_u64(&mut out, r.v3_quote_latency_ms);
    out.append(",\"decision\":");
    push_json_string(&mut out, r.decision.as_str());
    out.append(",\"reason\":");
    push_json_string(&mut out, r.reason.as_str());
    out.append("}");
    out
}

/// Everything known about one (block, input size) evaluation when its row
/// is written.
pub struct EmitContext {
    pub run_id: String,
    pub network: String,
    pub route: String,
    pub block: u64,
    pub block_age_secs: u64,
    pub input: U256,
    pub gas_price: U256,
    pub gas_cost: U256,
    pub flash_fee: U256,
    pub v2_out_mid: U256,
    pub v3_out: U256,
    pub v3_quote_latency_ms: u64,
}

/// Total cost of the hypothetical trade: principal plus flash fee plus
/// gas, saturating.
pub open spec fn spec_total_cost(input: nat, flash_fee: nat, gas_cost: nat) -> nat {
    clamp256(input + flash_fee + gas_cost)
}

/// What remains of the far-leg output after total cost, floored at zero.
pub open spec fn spec_net(v3_out: nat, total_cost: nat) -> nat {
    if v3_out > total_cost {
        (v3_out - total_cost) as nat
    } else {
        0
    }
}

/// Build the decision row for one evaluation: derives total cost, net
/// and the signed edge, and renders every amount in decimal.
pub fn build_row(ctx: &EmitContext, ts_unix_ms: u64, decision: &str, reason: &str) -> (r:
    ShadowDecisionLog)
    ensures
        spec_built_row(&r, ctx, ts_unix_ms, decision@, reason@),
{
    let total_cost = ctx.input.add_sat(&ctx.flash_fee).add_sat(&ctx.gas_cost);
    proof {
        assert(total_cost@ == spec_total_cost(ctx.input@, ctx.flash_fee@, ctx.gas_cost@));
    }
    let net = if total_cost.lt(&ctx.v3_out) {
        ctx.v3_out.sub_exact(&total_cost)
    } else {
        U256::zero()
    };
    let edge = signed_edge_bps(&ctx.v3_out, &total_cost);
    ShadowDecisionLog {
        run_id: ctx.run_id.clone(),
        ts_unix_ms,
        network: ctx.network.clone(),
        route: ctx.route.clone(),
        block: ctx.block,
        block_age_secs: ctx.block_age_secs,
        input_wei: ctx.input.to_dec_string(),
        gas_price_wei: ctx.gas_price.to_dec_string(),
        gas_cost_wei: ctx.gas_cost.to_dec_string(),
        flash_fee_wei: ctx.flash_fee.to_dec_string(),
        total_cost_wei: total_cost.to_dec_string(),
        v2_out_mid_wei: ctx.v2_out_mid.to_dec_string(),
        v3_out_wei: ctx.v3_out.to_dec_string(),
        net_wei: net.to_dec_string(),
        edge_bps: edge,
        v3_quote_latency_ms: ctx.v3_quote_latency_ms,
        decision: String::from_str(decision),
        reason: String::from_str(reason),
    }
}

/// Build the row, render it, and record it in the rolling counters: one
/// call per emitted decision line. The returned line is what goes to the
/// primary output.
pub fn emit_row(ctx: &EmitContext, ts_unix_ms: u64, decision: &str, reason: &str, stats: &mut
    ShadowStats) -> (line: String)
    ensures
        exists|r: ShadowDecisionLog|
            #[trigger] spec_built_row(&r, ctx, ts_unix_ms, decision@, reason@) && line@
                == spec_row_json(&r),
        final(stats).blocks_seen == old(stats).blocks_seen,
        final(stats).rows_emitted == if old(stats).rows_emitted < u64::MAX {
            old(stats).rows_emitted + 1
        } else {
            u64::MAX as int
        },
        decision@ == "would_trade"@ ==> final(stats).would_trade == (if old(
            stats,
        ).would_trade < u64::MAX {
            old(stats).would_trade + 1
        } else {
            u64::MAX as int
        }) && final(stats).would_skip == old(stats).would_skip,
        decision@ != "would_trade"@ ==> final(stats).would_skip == (if old(stats).would_skip
            < u64::MAX {
            old(stats).would_skip + 1
        } else {
            u64::MAX as int
        }) && final(stats).would_trade == old(stats).would_trade,
        wf_counts(old(stats).reason_counts@) ==> ({
            &&& wf_counts(final(stats).reason_counts@)
            &&& spec_count_of(final(stats).reason_counts@, spec_reason_prefix(reason@))
                == if spec_count_of(old(stats).reason_counts@, spec_reason_prefix(reason@))
                < u64::MAX {
                spec_count_of(old(stats).reason_counts@, spec_reason_prefix(reason@)) + 1
            } else {
                u64::MAX as nat
            }
            &&& forall|key: Seq<char>|
                key != spec_reason_prefix(reason@) ==> spec_count_of(
                    final(stats).reason_counts@,
                    key,
                ) == spec_count_of(old(stats).reason_counts@, key)
        }),
        wf_stats(old(stats)) ==> wf_stats(final(stats)),
{
    let row = build_row(ctx, ts_unix_ms, decision, reason);
    let line = row_json(&row);
    stats.record(decision, reason);
    proof {
        assert(spec_built_row(&row, ctx, ts_unix_ms, decision@, reason@) && line@
            == spec_row_json(&row));
    }
    line
}

/// An error row carries the input size, zeroed amounts, a `would_skip`
/// decision and the reason `kind:detail`.
pub open spec fn spec_error_row(
    r: &ShadowDecisionLog,
    run_id: Seq<char>,
    network: Seq<char>,
    route: Seq<char>,
    block: u64,
    block_age_secs: u64,
    ts_unix_ms: u64,
    input: nat,
    kind: Seq<char>,
    detail: Seq<char>,
) -> bool {
    &&& r.run_id@ == run_id
    &&& r.ts_unix_ms == ts_unix_ms
    &&& r.network@ == network
    &&& r.route@ == route
    &&& r.block == block
    &&& r.block_age_secs == block_age_secs
    &&& r.input_wei@ == spec_dec_string(input)
    &&& r.gas_price_wei@ == seq!['0']
    &&& r.gas_cost_wei@ == seq!['0']
    &&& r.flash_fee_wei@ == seq!['0']
    &&& r.total_cost_wei@ == seq!['0']
    &&& r.v2_out_mid_wei@ == seq!['0']
    &&& r.v3_out_wei@ == seq!['0']
    &&& r.net_wei@ == seq!['0']
    &&& r.edge_bps@ == seq!['0']
    &&& r.v3_quote_latency_ms == 0
    &&& r.decision@ == "would_skip"@
    &&& r.reason@ == kind + seq![':'] + detail
}

/// A rendered error row for one input size.
pub open spec fn spec_error_line(
    line: Seq<char>,
    run_id: Seq<char>,
    network: Seq<char>,
    route: Seq<char>,
    block: u64,
    block_age_secs: u64,
    ts_unix_ms: u64,
    input: nat,
    kind: Seq<char>,
    detail: Seq<char>,
) -> bool {
    exists|r: ShadowDecisionLog|
        #[trigger] spec_error_row(
            &r,
            run_id,
            network,
            route,
            block,
            block_age_secs,
            ts_unix_ms,
            input,
            kind,
            detail,
        ) && line == spec_row_json(&r)
}

/// The shared frame of the error rows a failed tick emits.
pub struct ErrorEmitContext {
    pub run_id: String,
    pub network: String,
    pub route: String,
    pub block: u64,
    pub block_age_secs: u64,
}

fn zero_string() -> (r: String)
    ensures
        r@ == seq!['0'],
{
    let mut s = String::new();
    s.push('0');
    s
}

/// Emit one zero-filled `would_skip` row per input size, all under the
/// reason `kind:detail`, recording each in the rolling counters. The
/// returned lines go to the primary output in order.
pub fn log_route_error(
    ctx: &ErrorEmitContext,
    ts_unix_ms: u64,
    kind: &str,
    detail: &str,
    input_sizes: &Vec<U256>,
    stats: &mut ShadowStats,
) -> (lines: Vec<String>)
    ensures
        lines@.len() == input_sizes@.len(),
        forall|i: int|
            0 <= i < lines@.len() ==> #[trigger] spec_error_line(
                lines@[i]@,
                ctx.run_id@,
                ctx.network@,
                ctx.route@,
                ctx.block,
                ctx.block_age_secs,
                ts_unix_ms,
                input_sizes@[i]@,
                kind@,
                detail@,
            ),
        final(stats).blocks_seen == old(stats).blocks_seen,
        final(stats).would_trade == old(stats).would_trade,
        final(stats).rows_emitted == if old(stats).rows_emitted + input_sizes@.len()
            <= u64::MAX {
            old(stats).rows_emitted + input_sizes@.len()
        } else {
            u64::MAX as int
        },
        final(stats).would_skip == if old(stats).would_skip + input_sizes@.len() <= u64::MAX {
            old(stats).would_skip + input_sizes@.len()
        } else {
            u64::MAX as int
        },
        wf_stats(old(stats)) ==> wf_stats(final(stats)),
{
    let mut reason = String::new();
    reason.append(kind);
    reason.push(':');
    reason.append(detail);
    let mut lines: Vec<String> = Vec::new();
    let mut i: usize = 0;
    while i < input_sizes.len()
        invariant
            reason@ == kind@ + seq![':'] + detail@,
            i <= input_sizes@.len(),
            lines@.len() == i,
            forall|j: int|
                0 <= j < lines@.len() ==> #[trigger] spec_error_line(
                    lines@[j]@,
                    ctx.run_id@,
                    ctx.network@,
                    ctx.route@,
                    ctx.block,
                    ctx.block_age_secs,
                    ts_unix_ms,
                    input_sizes@[j]@,
                    kind@,
                    detail@,
                ),
            stats.blocks_seen == old(stats).blocks_seen,
            stats.would_trade == old(stats).would_trade,
            stats.rows_emitted == if old(stats).rows_emitted + i <= u64::MAX {
                old(stats).rows_emitted + i
            } else {
                u64::MAX as int
            },
            stats.would_skip == if old(stats).would_skip + i <= u64::MAX {
                old(stats).would_skip + i
            } else {
                u64::MAX as int
            },
            wf_stats(old(stats)) ==> wf_stats(stats),
        decreases input_sizes@.len() - i,
    {
        let row = ShadowDecisionLog {
            run_id: ctx.run_id.clone(),
            ts_unix_ms,
            network: ctx.network.clone(),
            route: ctx.route.clone(),
            block: ctx.block,
            block_age_secs: ctx.block_age_secs,
            input_wei: input_sizes[i].to_dec_string(),
            gas_price_wei: zero_string(),
            gas_cost_wei: zero_string(),
            flash_fee_wei: zero_string(),
            total_cost_wei: zero_string(),
            v2_out_mid_wei: zero_string(),
            v3_out_wei: zero_string(),
            net_wei: zero_string(),
            edge_bps: zero_string(),
            v3_quote_latency_ms: 0,
            decision: String::from_str("would_skip"),
            reason: reason.clone(),
        };
        let line = row_json(&row);
        proof {
            reveal_strlit("would_skip");
            reveal_strlit("would_trade");
            assert("would_skip"@.len() != "would_trade"@.len());
        }
        stats.record("would_skip", reason.as_str());
        lines.push(line);
        proof {
            let r = row;
            assert(spec_error_row(
                &r,
                ctx.run_id@,
                ctx.network@,
                ctx.route@,
                ctx.block,
                ctx.block_age_secs,
                ts_unix_ms,
                input_sizes@[i as int]@,
                kind@,
                detail@,
            ) && lines@[i as int]@ == spec_row_json(&r));
            assert(spec_error_line(
                lines@[i as int]@,
                ctx.run_id@,
                ctx.network@,
                ctx.route@,
                ctx.block,
                ctx.block_age_secs,
                ts_unix_ms,
                input_sizes@[i as int]@,
                kind@,
                detail@,
            ));
        }
        i = i + 1;
    }
    lines
}

/// One JSON object of the top-reasons array.
pub open spec fn spec_reason_entry_json(reason: Seq<char>, count: nat) -> Seq<char> {
    "{\"reason\":"@ + spec_json_string(reason) + ",\"count\":"@ + spec_dec_string(count) + "}"@
}

/// The comma-separated items of the top-reasons array.
pub open spec fn spec_reasons_items(s: Seq<ReasonCount>) -> Seq<char>
    decreases s.len(),
{
    if s.len() == 0 {
        Seq::empty()
    } else if s.len() == 1 {
        spec_reason_entry_json(s[0].reason@, s[0].count as nat)
    } else {
        spec_reason_entry_json(s[0].reason@, s[0].count as nat) + seq![',']
            + spec_reasons_items(s.drop_first())
    }
}

/// Appending an entry appends its rendering, with a comma in between
/// when something already stands there.
proof fn lemma_reasons_items_push(s: Seq<ReasonCount>, e: ReasonCount)
    ensures
        spec_reasons_items(s.push(e)) == if s.len() == 0 {
            spec_reason_entry_json(e.reason@, e.count as nat)
        } else {
            spec_reasons_items(s) + seq![','] + spec_reason_entry_json(e.reason@, e.count as nat)
        },
    decreases s.len(),
{
    if s.len() == 0 {
        assert(s.push(e)[0] == e);
        assert(s.push(e).len() == 1);
    } else {
        assert(s.push(e)[0] == s[0]);
        assert(s.push(e).drop_first() =~= s.drop_first().push(e));
        lemma_reasons_items_push(s.drop_first(), e);
        if s.len() == 1 {
            assert(spec_reasons_items(s.push(e)) =~= spec_reasons_items(s) + seq![',']
                + spec_reason_entry_json(e.reason@, e.count as nat));
        } else {
            assert(spec_reasons_items(s.push(e)) =~= spec_reasons_items(s) + seq![',']
                + spec_reason_entry_json(e.reason@, e.count as nat));
        }
    }
}

/// The summary line written to the error stream.
pub open spec fn spec_summary_json(
    run_id: Seq<char>,
    network: Seq<char>,
    route: Seq<char>,
    summary_kind: Seq<char>,
    latest_block: u64,
    blocks_seen: u64,
    rows_emitted: u64,
    would_trade: u64,
    would_skip: u64,
    tops: Seq<ReasonCount>,
) -> Seq<char> {
    "{\"run_id\":"@ + spec_json_string(run_id) + ",\"network\":"@ + spec_json_string(network)
        + ",\"route\":"@ + spec_json_string(route) + ",\"summary_kind\":"@ + spec_json_string(
        summary_kind,
    ) + ",\"latest_block\":"@ + spec_dec_string(latest_block as nat) + ",\"blocks_seen\":"@
        + spec_dec_string(blocks_seen as nat) + ",\"rows_emitted\":"@ + spec_dec_string(
        rows_emitted as nat,
    ) + ",\"would_trade\":"@ + spec_dec_string(would_trade as nat) + ",\"would_skip\":"@
        + spec_dec_string(would_skip as nat) + ",\"top_reasons\":["@ + spec_reasons_items(tops)
        + "]}"@
}

/// Render the summary for the current counters, carrying the five
/// heaviest reason buckets in canonical order.
pub fn emit_summary(
    run_id: &str,
    network: &str,
    route: &str,
    latest_block: u64,
    summary_kind: &str,
    stats: &ShadowStats,
) -> (line: String)
    ensures
        exists|tops: Seq<ReasonCount>|
            #[trigger] line@ == spec_summary_json(
                run_id@,
                network@,
                route@,
                summary_kind@,
                latest_block,
                stats.blocks_seen,
                stats.rows_emitted,
                stats.would_trade,
                stats.would_skip,
                tops,
            ) && tops.len() == (if 5 <= stats.reason_counts@.len() {
                5int
            } else {
                stats.reason_counts@.len() as int
            }) && crate::stats::spec_ranked(tops) && (forall|i: int|
                0 <= i < tops.len() ==> crate::stats::spec_in_counts(
                    stats.reason_counts@,
                    #[trigger] tops[i],
                )),
{
    let tops = crate::stats::top_reason_counts(stats, 5);
    let mut out = String::new();
    out.append("{\"run_id\":");
    push_json_string(&mut out, run_id);
    out.append(",\"network\":");
    push_json_string(&mut out, network);
    out.append(",\"route\":");
    push_json_string(&mut out, route);
    out.append(",\"summary_kind\":");
    push_json_string(&mut out, summary_kind);
    out.append(",\"latest_block\":");
    push_json_u64(&mut out, latest_block);
    out.append(",\"blocks_seen\":");
    push_json_u64(&mut out, stats.blocks_seen);
    out.append(",\"rows_emitted\":");
    push_json_u64(&mut out, stats.rows_emitted);
    out.append(",\"would_trade\":");
    push_json_u64(&mut out, stats.would_trade);
    out.append(",\"would_skip\":");
    push_json_u64(&mut out, stats.would_skip);
    out.append(",\"top_reasons\":[");
    let mut i: usize = 0;
    let ghost base = out@;
    while i < tops.len()
        invariant
            i <= tops@.len(),
            out@ == base + spec_reasons_items(tops@.take(i as int)),
        decreases tops@.len() - i,
    {
        if i > 0 {
            out.push(',');
        }
        out.append("{\"reason\":");
        push_json_string(&mut out, tops[i].reason.as_str());
        out.append(",\"count\":");
        push_json_u64(&mut out, tops[i].count);
        out.append("}");
        proof {
            lemma_reasons_items_push(tops@.take(i as int), tops@[i as int]);
            assert(tops@.take(i + 1) =~= tops@.take(i as int).push(tops@[i as int]));
            assert(out@ =~= base + spec_reasons_items(tops@.take(i + 1)));
        }
        i = i + 1;
    }
    out.append("]}");
    proof {
        assert(tops@.take(i as int) =~= tops@);
        assert(line_matches(out@, run_id@, network@, route@, summary_kind@, latest_block, stats,
            tops@));
    }
    out
}

/// The assembled summary text equals the specified line for these tops.
pub open spec fn line_matches(
    line: Seq<char>,
    run_id: Seq<char>,
    network: Seq<char>,
    route: Seq<char>,
    summary_kind: Seq<char>,
    latest_block: u64,
    stats: &ShadowStats,
    tops: Seq<ReasonCount>,
) -> bool {
    line == spec_summary_json(
        run_id,
        network,
        route,
        summary_kind,
        latest_block,
        stats.blocks_seen,
        stats.rows_emitted,
        stats.would_trade,
        stats.would_skip,
        tops,
    )
}

} // verus!
