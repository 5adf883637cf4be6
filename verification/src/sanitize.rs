//! Scrubbing URLs out of free-form error text before it is logged: each
//! whitespace-separated token is stripped of bracketing punctuation, and a
//! core that names an HTTP or WebSocket scheme is replaced by a
//! placeholder. Already-sanitized text passes through unchanged.

use vstd::prelude::*;
use crate::text::{str_chars, push_chars, is_space, spec_is_space};

verus! {

use vstd::string::StringExecFns;

/// Opening punctuation stripped from a token's front.
pub open spec fn spec_open_char(c: char) -> bool {
    c == '"' || c == '\'' || c == '(' || c == '[' || c == '{' || c == '<'
}

/// Closing punctuation stripped from a token's back.
pub open spec fn spec_close_char(c: char) -> bool {
    c == '"' || c == '\'' || c == ')' || c == ']' || c == '}' || c == '>' || c == ',' || c
        == '.' || c == ';' || c == ':'
}

fn open_char(c: char) -> (r: bool)
    ensures
        r == spec_open_char(c),
{
    c == '"' || c == '\'' || c == '(' || c == '[' || c == '{' || c == '<'
}

fn close_char(c: char) -> (r: bool)
    ensures
        r == spec_close_char(c),
{
    c == '"' || c == '\'' || c == ')' || c == ']' || c == '}' || c == '>' || c == ',' || c
        == '.' || c == ';' || c == ':'
}

/// How many opening characters lead the token.
pub open spec fn spec_lead(s: Seq<char>) -> int
    decreases s.len(),
{
    if s.len() > 0 && spec_open_char(s[0]) {
        1 + spec_lead(s.drop_first())
    } else {
        0
    }
}

/// How many closing characters trail the token.
pub open spec fn spec_trail(s: Seq<char>) -> int
    decreases s.len(),
{
    if s.len() > 0 && spec_close_char(s.last()) {
        1 + spec_trail(s.drop_last())
    } else {
        0
    }
}

proof fn lemma_lead_characterize(s: Seq<char>, i: int)
    requires
        0 <= i <= s.len(),
        forall|k: int| 0 <= k < i ==> spec_open_char(s[k]),
        i < s.len() ==> !spec_open_char(s[i]),
    ensures
        spec_lead(s) == i,
    decreases i,
{
    if i == 0 {
    } else {
        assert(spec_open_char(s[0]));
        lemma_lead_characterize(s.drop_first(), i - 1);
    }
}

proof fn lemma_trail_characterize(s: Seq<char>, i: int)
    requires
        0 <= i <= s.len(),
        forall|k: int| s.len() - i <= k < s.len() ==> spec_close_char(s[k]),
        i < s.len() ==> !spec_close_char(s[s.len() - 1 - i]),
    ensures
        spec_trail(s) == i,
    decreases i,
{
    if i == 0 {
    } else {
        assert(spec_close_char(s.last()));
        lemma_trail_characterize(s.drop_last(), i - 1);
    }
}

/// Whether `s` begins with `p`.
pub open spec fn spec_starts_with(s: Seq<char>, p: Seq<char>) -> bool {
    p.len() <= s.len() && s.take(p.len() as int) == p
}

/// Whether the core names a scheme that marks it as a URL.
pub open spec fn spec_is_url(core: Seq<char>) -> bool {
    ||| spec_starts_with(core, "https://"@)
    ||| spec_starts_with(core, "http://"@)
    ||| spec_starts_with(core, "wss://"@)
    ||| spec_starts_with(core, "ws://"@)
}

/// One sanitized token: bracketing punctuation is kept, and a URL core is
/// replaced by the placeholder.
pub open spec fn spec_sanitize_token(s: Seq<char>) -> Seq<char> {
    let lead = spec_lead(s);
    let trail = spec_trail(s);
    if lead + trail >= s.len() {
        s
    } else {
        let core = s.subrange(lead, s.len() - trail);
        if spec_is_url(core) {
            s.take(lead) + "<redacted-url>"@ + s.skip(s.len() - trail)
        } else {
            s
        }
    }
}

/// Whether the slice `v[from..to]` begins with the pattern `p`.
fn range_has_prefix(v: &Vec<char>, from: usize, to: usize, p: &str) -> (r: bool)
    requires
        from <= to <= v@.len(),
    ensures
        r == spec_starts_with(v@.subrange(from as int, to as int), p@),
{
    let pc = str_chars(p);
    if to - from < pc.len() {
        return false;
    }
    let mut i: usize = 0;
    while i < pc.len()
        invariant
            from <= to <= v@.len(),
            pc@ == p@,
            p@.len() <= to - from,
            i <= pc@.len(),
            forall|k: int| 0 <= k < i ==> v@.subrange(from as int, to as int)[k] == p@[k],
        decreases pc@.len() - i,
    {
        if v[from + i] != pc[i] {
            proof {
                assert(v@.subrange(from as int, to as int)[i as int] != p@[i as int]);
            }
            return false;
        }
        proof {
            assert(v@.subrange(from as int, to as int)[i as int] == p@[i as int]);
        }
        i = i + 1;
    }
    proof {
        assert(v@.subrange(from as int, to as int).take(p@.len() as int) =~= p@);
    }
    true
}

/// Sanitize a single token given as characters.
fn sanitize_token_chars(v: &Vec<char>) -> (r: String)
    ensures
        r@ == spec_sanitize_token(v@),
{
    let n = v.len();
    let mut lead: usize = 0;
    let mut done: bool = false;
    while !done && lead < n
        invariant
            n == v@.len(),
            lead <= n,
            forall|k: int| 0 <= k < lead ==> spec_open_char(v@[k]),
            done ==> lead < n && !spec_open_char(v@[lead as int]),
        decreases n - lead + (if done { 0int } else { 1int }),
    {
        if open_char(v[lead]) {
            lead = lead + 1;
        } else {
            done = true;
        }
    }
    proof {
        lemma_lead_characterize(v@, lead as int);
    }
    let mut trail: usize = 0;
    done = false;
    while !done && trail < n
        invariant
            n == v@.len(),
            trail <= n,
            forall|k: int| n - trail <= k < n ==> spec_close_char(v@[k]),
            done ==> trail < n && !spec_close_char(v@[n - 1 - trail]),
        decreases n - trail + (if done { 0int } else { 1int }),
    {
        if close_char(v[n - 1 - trail]) {
            trail = trail + 1;
        } else {
            done = true;
        }
    }
    proof {
        lemma_trail_characterize(v@, trail as int);
    }
    if lead >= n - trail {
        let mut out = String::new();
        push_chars(&mut out, v);
        return out;
    }
    let core_end = n - trail;
    let is_url = range_has_prefix(v, lead, core_end, "https://") || range_has_prefix(
        v,
        lead,
        core_end,
        "http://",
    ) || range_has_prefix(v, lead, core_end, "wss://") || range_has_prefix(
        v,
        lead,
        core_end,
        "ws://",
    );
    if is_url {
        let mut out = String::new();
        let mut i: usize = 0;
        while i < lead
            invariant
                lead <= v@.len(),
                i <= lead,
                out@ == v@.take(i as int),
            decreases lead - i,
        {
            out.push(v[i]);
            proof {
                assert(v@.take(i + 1) =~= v@.take(i as int).push(v@[i as int]));
            }
            i = i + 1;
        }
        out.append("<redacted-url>");
        let mut j: usize = core_end;
        while j < n
            invariant
                core_end <= j <= n == v@.len(),
                out@ == v@.take(lead as int) + "<redacted-url>"@ + v@.subrange(
                    core_end as int,
                    j as int,
                ),
            decreases n - j,
        {
            out.push(v[j]);
            proof {
                assert(v@.subrange(core_end as int, j + 1) =~= v@.subrange(
                    core_end as int,
                    j as int,
                ).push(v@[j as int]));
                assert(out@ =~= v@.take(lead as int) + "<redacted-url>"@ + v@.subrange(
                    core_end as int,
                    j + 1,
                ));
            }
            j = j + 1;
        }
        proof {
            assert(v@.subrange(core_end as int, n as int) =~= v@.skip(core_end as int));
        }
        out
    } else {
        let mut out = String::new();
        push_chars(&mut out, v);
        out
    }
}

/// Sanitize one whitespace-free token of an error message.
pub fn sanitize_token(token: &str) -> (r: String)
    ensures
        r@ == spec_sanitize_token(token@),
{
    let v = str_chars(token);
    sanitize_token_chars(&v)
}

/// How long the token starting at the head runs.
pub open spec fn spec_token_len(s: Seq<char>) -> int
    decreases s.len(),
{
    if s.len() > 0 && !spec_is_space(s[0]) {
        1 + spec_token_len(s.drop_first())
    } else {
        0
    }
}

/// Whether any token remains.
pub open spec fn spec_has_token(s: Seq<char>) -> bool
    decreases s.len(),
{
    if s.len() == 0 {
        false
    } else if spec_is_space(s[0]) {
        spec_has_token(s.drop_first())
    } else {
        true
    }
}

proof fn lemma_token_len_characterize(s: Seq<char>, i: int)
    requires
        0 <= i <= s.len(),
        forall|k: int| 0 <= k < i ==> !spec_is_space(s[k]),
        i < s.len() ==> spec_is_space(s[i]),
    ensures
        spec_token_len(s) == i,
    decreases i,
{
    if i == 0 {
    } else {
        assert(!spec_is_space(s[0]));
        lemma_token_len_characterize(s.drop_first(), i - 1);
    }
}

/// A token runs at most to the end of the text.
proof fn lemma_token_len_bounds(s: Seq<char>)
    ensures
        0 <= spec_token_len(s) <= s.len(),
    decreases s.len(),
{
    if s.len() > 0 && !spec_is_space(s[0]) {
        lemma_token_len_bounds(s.drop_first());
    }
}

/// The whole message, tokenized on whitespace, each token sanitized, and
/// rejoined on single spaces.
pub open spec fn spec_sanitize_text(s: Seq<char>) -> Seq<char>
    decreases s.len(),
    via sanitize_text_decreases
{
    if s.len() == 0 {
        Seq::empty()
    } else if spec_is_space(s[0]) {
        spec_sanitize_text(s.drop_first())
    } else {
        let t = spec_token_len(s);
        spec_sanitize_token(s.take(t)) + (if spec_has_token(s.skip(t)) {
            seq![' '] + spec_sanitize_text(s.skip(t))
        } else {
            Seq::<char>::empty()
        })
    }
}

#[via_fn]
proof fn sanitize_text_decreases(s: Seq<char>) {
    if s.len() > 0 && !spec_is_space(s[0]) {
        lemma_token_len_bounds(s.drop_first());
    }
}

/// Sanitize a whole error message.
pub fn sanitize_log_text(message: &str) -> (r: String)
    ensures
        r@ == spec_sanitize_text(message@),
{
    let v = str_chars(message);
    let n = v.len();
    let mut out = String::new();
    let mut pos: usize = 0;
    let mut first: bool = true;
    proof {
        assert(v@.skip(0) =~= v@);
    }
    loop
        invariant
            v@ == message@,
            n == v@.len(),
            pos <= n,
            first ==> out@.len() == 0 && spec_sanitize_text(message@) == spec_sanitize_text(
                v@.skip(pos as int),
            ),
            !first ==> spec_sanitize_text(message@) == out@ + (if spec_has_token(
                v@.skip(pos as int),
            ) {
                seq![' '] + spec_sanitize_text(v@.skip(pos as int))
            } else {
                Seq::<char>::empty()
            }),
        decreases n - pos,
    {
        if pos == n {
            proof {
                assert(v@.skip(pos as int).len() == 0);
            }
            return out;
        }
        let ghost suffix = v@.skip(pos as int);
        proof {
            assert(suffix[0] == v@[pos as int]);
            assert(suffix.drop_first() =~= v@.skip(pos + 1));
        }
        if is_space(v[pos]) {
            pos = pos + 1;
        } else {
            // scan to the end of this token
            let mut j: usize = pos;
            let mut done: bool = false;
            while !done && j < n
                invariant
                    pos <= j <= n == v@.len(),
                    forall|k: int| pos <= k < j ==> !spec_is_space(v@[k]),
                    done ==> j < n && spec_is_space(v@[j as int]),
                decreases n - j + (if done { 0int } else { 1int }),
            {
                if is_space(v[j]) {
                    done = true;
                } else {
                    j = j + 1;
                }
            }
            proof {
                assert(forall|k: int|
                    0 <= k < j - pos ==> suffix[k] == v@[pos + k] && !spec_is_space(suffix[k]));
                assert(j < n ==> suffix[j - pos] == v@[j as int]);
                lemma_token_len_characterize(suffix, j - pos);
            }
            let mut token: Vec<char> = Vec::new();
            let mut k: usize = pos;
            while k < j
                invariant
                    pos <= k <= j <= v@.len(),
                    token@ == v@.subrange(pos as int, k as int),
                decreases j - k,
            {
                token.push(v[k]);
                proof {
                    assert(v@.subrange(pos as int, k + 1) =~= v@.subrange(
                        pos as int,
                        k as int,
                    ).push(v@[k as int]));
                }
                k = k + 1;
            }
            proof {
                assert(token@ =~= suffix.take(j - pos));
            }
            let st = sanitize_token_chars(&token);
            if first {
                out.append(st.as_str());
                first = false;
            } else {
                out.push(' ');
                out.append(st.as_str());
            }
            proof {
                assert(suffix.skip(j - pos) =~= v@.skip(j as int));
            }
            pos = j;
        }
    }
}

/// Sanitize the display text of an error before it reaches a log line.
pub fn sanitize_error(message: &str) -> (r: String)
    ensures
        r@ == spec_sanitize_text(message@),
{
    sanitize_log_text(message)
}

} // verus!
