//! Running counters over emitted decision rows, with a histogram keyed by
//! the reason prefix — the part of a reason before its first colon — so
//! that free-form detail suffixes never blow up the key set.

use vstd::prelude::*;
use crate::text::{spec_lex_le, str_eq, str_lex_le, str_chars, push_chars};


verus! {

/// One reason prefix and how often it was recorded.
pub struct ReasonCount {
    pub reason: String,
    pub count: u64,
}

/// Rolling counters for one run.
pub struct ShadowStats {
    pub blocks_seen: u64,
    pub rows_emitted: u64,
    pub would_trade: u64,
    pub would_skip: u64,
    pub reason_counts: Vec<ReasonCount>,
}

/// Where the first colon of `s` stands, or the length if there is none.
pub open spec fn spec_colon_pos(s: Seq<char>) -> int
    decreases s.len(),
{
    if s.len() == 0 {
        0
    } else if s[0] == ':' {
        0
    } else {
        1 + spec_colon_pos(s.drop_first())
    }
}

/// The reason prefix: everything before the first colon, or the whole
/// string when it has none.
pub open spec fn spec_reason_prefix(s: Seq<char>) -> Seq<char> {
    s.take(spec_colon_pos(s))
}

proof fn lemma_colon_pos_characterize(s: Seq<char>, i: int)
    requires
        0 <= i <= s.len(),
        forall|j: int| 0 <= j < i ==> s[j] != ':',
        i < s.len() ==> s[i] == ':',
    ensures
        spec_colon_pos(s) == i,
    decreases i,
{
    if i == 0 {
    } else {
        assert(s[0] != ':');
        lemma_colon_pos_characterize(s.drop_first(), i - 1);
    }
}

/// The count a histogram holds for `key`, zero if absent.
pub open spec fn spec_count_of(rc: Seq<ReasonCount>, key: Seq<char>) -> nat
    decreases rc.len(),
{
    if rc.len() == 0 {
        0
    } else if rc[0].reason@ == key {
        rc[0].count as nat
    } else {
        spec_count_of(rc.drop_first(), key)
    }
}

/// The histogram's keys are pairwise distinct.
pub open spec fn wf_counts(rc: Seq<ReasonCount>) -> bool {
    forall|i: int, j: int| 0 <= i < j < rc.len() ==> rc[i].reason@ != rc[j].reason@
}

/// A well-formed statistics record: every row was either a trade or a
/// skip, so the two decision counters sum to the row count, as long as
/// the row counter has not saturated.
pub open spec fn wf_stats(s: &ShadowStats) -> bool {
    &&& s.rows_emitted < u64::MAX ==> s.rows_emitted == s.would_trade + s.would_skip
    &&& s.would_trade <= s.rows_emitted
    &&& s.would_skip <= s.rows_emitted
    &&& wf_counts(s.reason_counts@)
}

/// A count in a well-formed histogram is found at whatever index its key
/// sits, which lets index-wise reasoning reach `spec_count_of`.
proof fn lemma_count_of_at_index(rc: Seq<ReasonCount>, i: int)
    requires
        wf_counts(rc),
        0 <= i < rc.len(),
    ensures
        spec_count_of(rc, rc[i].reason@) == rc[i].count,
    decreases rc.len(),
{
    if i > 0 {
        assert(rc[0].reason@ != rc[i].reason@);
        lemma_count_of_at_index(rc.drop_first(), i - 1);
    }
}

/// A key held by no entry counts zero.
proof fn lemma_count_of_absent(rc: Seq<ReasonCount>, key: Seq<char>)
    requires
        forall|i: int| 0 <= i < rc.len() ==> rc[i].reason@ != key,
    ensures
        spec_count_of(rc, key) == 0,
    decreases rc.len(),
{
    if rc.len() > 0 {
        lemma_count_of_absent(rc.drop_first(), key);
    }
}

/// Appending an entry under a fresh key sets that key's count and leaves
/// every other key's count alone.
proof fn lemma_count_of_push(rc: Seq<ReasonCount>, e: ReasonCount, key: Seq<char>)
    requires
        forall|i: int| 0 <= i < rc.len() ==> rc[i].reason@ != e.reason@,
    ensures
        spec_count_of(rc.push(e), e.reason@) == e.count,
        key != e.reason@ ==> spec_count_of(rc.push(e), key) == spec_count_of(rc, key),
    decreases rc.len(),
{
    if rc.len() == 0 {
        assert(rc.push(e)[0] == e);
        assert(rc.push(e).drop_first() =~= Seq::<ReasonCount>::empty());
        assert(spec_count_of(Seq::<ReasonCount>::empty(), key) == 0);
        assert(spec_count_of(rc, key) == 0);
    } else {
        assert(rc.push(e)[0] == rc[0]);
        assert(rc.push(e).drop_first() =~= rc.drop_first().push(e));
        assert(forall|i: int|
            0 <= i < rc.drop_first().len() ==> rc.drop_first()[i] == rc[i + 1]);
        lemma_count_of_push(rc.drop_first(), e, key);
        if rc[0].reason@ == key {
            assert(spec_count_of(rc.push(e), key) == rc[0].count);
        } else {
            assert(spec_count_of(rc.push(e), key) == spec_count_of(
                rc.drop_first().push(e),
                key,
            ));
        }
    }
}

/// The index of the first colon in `chars`, or its length if none occurs.
fn colon_pos(chars: &Vec<char>) -> (pos: usize)
    ensures
        pos as int == spec_colon_pos(chars@),
        pos <= chars@.len(),
{
    let mut i: usize = 0;
    while i < chars.len()
        invariant
            i <= chars@.len(),
            forall|j: int| 0 <= j < i ==> chars@[j] != ':',
        decreases chars.len() - i,
    {
        if chars[i] == ':' {
            proof {
                lemma_colon_pos_characterize(chars@, i as int);
            }
            return i;
        }
        i = i + 1;
    }
    proof {
        lemma_colon_pos_characterize(chars@, i as int);
    }
    i
}

/// The reason prefix of a reason string, as the histogram keys it.
pub fn normalized_reason(reason: &str) -> (r: String)
    ensures
        r@ == spec_reason_prefix(reason@),
{
    let chars = str_chars(reason);
    let i = colon_pos(&chars);
    let mut prefix: Vec<char> = Vec::new();
    let mut j: usize = 0;
    while j < i
        invariant
            chars@ == reason@,
            i <= chars@.len(),
            j <= i,
            prefix@ == reason@.take(j as int),
        decreases i - j,
    {
        prefix.push(chars[j]);
        proof {
            assert(reason@.take(j + 1) =~= reason@.take(j as int).push(reason@[j as int]));
        }
        j = j + 1;
    }
    let mut out = String::new();
    push_chars(&mut out, &prefix);
    out
}

/// Bump the histogram bucket of `key` by one, saturating, adding the
/// bucket if it is new.
fn bump_reason(rc: &mut Vec<ReasonCount>, key: String)
    ensures
        wf_counts(old(rc)@) ==> ({
            &&& wf_counts(final(rc)@)
            &&& spec_count_of(final(rc)@, key@) == if spec_count_of(old(rc)@, key@)
                < u64::MAX {
                spec_count_of(old(rc)@, key@) + 1
            } else {
                u64::MAX as nat
            }
            &&& forall|k: Seq<char>|
                k != key@ ==> spec_count_of(final(rc)@, k) == spec_count_of(old(rc)@, k)
        }),
{
    let ghost rc0 = rc@;
    let mut idx: usize = 0;
    let n = rc.len();
    while idx < n
        invariant
            rc0 == old(rc)@,
            n == rc@.len(),
            idx <= n,
            rc@ == rc0,
            forall|j: int| 0 <= j < idx ==> rc0[j].reason@ != key@,
        decreases n - idx,
    {
        if str_eq(rc[idx].reason.as_str(), key.as_str()) {
            let c = rc[idx].count;
            let bumped: u64 = if c < u64::MAX {
                c + 1
            } else {
                u64::MAX
            };
            let reason_copy = rc[idx].reason.clone();
            rc.set(idx, ReasonCount { reason: reason_copy, count: bumped });
            proof {
                if wf_counts(rc0) {
                    let rc1 = rc@;
                    assert(forall|i: int|
                        0 <= i < rc1.len() ==> rc1[i].reason@ == rc0[i].reason@);
                    assert(wf_counts(rc1));
                    lemma_record_update(rc0, rc1, idx as int, key@);
                }
            }
            return ;
        }
        idx = idx + 1;
    }
    proof {
        if wf_counts(rc0) {
            lemma_count_of_absent(rc0, key@);
        }
    }
    let ghost keyv = key@;
    rc.push(ReasonCount { reason: key, count: 1 });
    proof {
        if wf_counts(rc0) {
            let rc1 = rc@;
            let e = rc1.last();
            assert(rc1 =~= rc0.push(e));
            assert(e.reason@ == keyv && e.count == 1);
            assert(wf_counts(rc1)) by {
                assert(forall|i: int| 0 <= i < rc0.len() ==> rc1[i].reason@ == rc0[i].reason@);
            }
            assert forall|k: Seq<char>| k != keyv implies spec_count_of(rc1, k)
                == spec_count_of(rc0, k) by {
                lemma_count_of_push(rc0, e, k);
            }
            lemma_count_of_push(rc0, e, keyv);
        }
    }
}

impl ShadowStats {
    pub fn new() -> (r: ShadowStats)
        ensures
            r.blocks_seen == 0,
            r.rows_emitted == 0,
            r.would_trade == 0,
            r.would_skip == 0,
            r.reason_counts@.len() == 0,
            wf_stats(&r),
    {
        ShadowStats {
            blocks_seen: 0,
            rows_emitted: 0,
            would_trade: 0,
            would_skip: 0,
            reason_counts: Vec::new(),
        }
    }

    /// Count one new block.
    pub fn see_block(&mut self)
        ensures
            final(self).blocks_seen == if old(self).blocks_seen < u64::MAX {
                old(self).blocks_seen + 1
            } else {
                u64::MAX as int
            },
            final(self).rows_emitted == old(self).rows_emitted,
            final(self).would_trade == old(self).would_trade,
            final(self).would_skip == old(self).would_skip,
            final(self).reason_counts == old(self).reason_counts,
    {
        if self.blocks_seen < u64::MAX {
            self.blocks_seen = self.blocks_seen + 1;
        }
    }

    /// Record one emitted row: bump the row counter, the counter of the
    /// decision taken, and the histogram bucket of the reason's prefix.
    /// Every counter saturates instead of wrapping.
    pub fn record(&mut self, decision: &str, reason: &str)
        ensures
            final(self).blocks_seen == old(self).blocks_seen,
            final(self).rows_emitted == if old(self).rows_emitted < u64::MAX {
                old(self).rows_emitted + 1
            } else {
                u64::MAX as int
            },
            decision@ == "would_trade"@ ==> final(self).would_trade == (if old(
                self,
            ).would_trade < u64::MAX {
                old(self).would_trade + 1
            } else {
                u64::MAX as int
            }) && final(self).would_skip == old(self).would_skip,
            decision@ != "would_trade"@ ==> final(self).would_skip == (if old(self).would_skip
                < u64::MAX {
                old(self).would_skip + 1
            } else {
                u64::MAX as int
            }) && final(self).would_trade == old(self).would_trade,
            wf_counts(old(self).reason_counts@) ==> ({
                &&& wf_counts(final(self).reason_counts@)
                &&& spec_count_of(final(self).reason_counts@, spec_reason_prefix(reason@))
                    == if spec_count_of(old(self).reason_counts@, spec_reason_prefix(reason@))
                    < u64::MAX {
                    spec_count_of(old(self).reason_counts@, spec_reason_prefix(reason@)) + 1
                } else {
                    u64::MAX as nat
                }
                &&& forall|key: Seq<char>|
                    key != spec_reason_prefix(reason@) ==> spec_count_of(
                        final(self).reason_counts@,
                        key,
                    ) == spec_count_of(old(self).reason_counts@, key)
            }),
            wf_stats(old(self)) ==> wf_stats(final(self)),
    {
        if self.rows_emitted < u64::MAX {
            self.rows_emitted = self.rows_emitted + 1;
        }
        if str_eq(decision, "would_trade") {
            if self.would_trade < u64::MAX {
                self.would_trade = self.would_trade + 1;
            }
        } else {
            if self.would_skip < u64::MAX {
                self.would_skip = self.would_skip + 1;
            }
        }
        let key = normalized_reason(reason);
        bump_reason(&mut self.reason_counts, key);
    }
}

/// The canonical ranking of histogram entries: greater counts first, ties
/// broken by reason string ascending.
pub open spec fn spec_rank_le(c1: u64, r1: Seq<char>, c2: u64, r2: Seq<char>) -> bool {
    c1 > c2 || (c1 == c2 && spec_lex_le(r1, r2))
}

/// Entries in canonical order throughout.
#[verifier::opaque]
pub open spec fn spec_ranked(s: Seq<ReasonCount>) -> bool {
    forall|i: int, j: int|
        0 <= i < j < s.len() ==> spec_rank_le(
            #[trigger] s[i].count,
            s[i].reason@,
            #[trigger] s[j].count,
            s[j].reason@,
        )
}

/// `e` occurs in the histogram, key and count both.
pub open spec fn spec_in_counts(rc: Seq<ReasonCount>, e: ReasonCount) -> bool {
    exists|i: int| 0 <= i < rc.len() && rc[i].reason@ == e.reason@ && rc[i].count == e.count
}

/// Every held entry is a bucket of the first `bound` histogram entries.
#[verifier::opaque]
pub open spec fn spec_top_sound(rc: Seq<ReasonCount>, bound: int, s: Seq<ReasonCount>) -> bool {
    forall|j: int| 0 <= j < s.len() ==> spec_in_counts(rc.take(bound), #[trigger] s[j])
}

/// Every bucket among the first `bound` histogram entries is held.
#[verifier::opaque]
pub open spec fn spec_top_complete(rc: Seq<ReasonCount>, bound: int, s: Seq<ReasonCount>) -> bool {
    forall|k: int| 0 <= k < bound ==> spec_in_counts(s, #[trigger] rc[k])
}

/// No reason occurs twice.
#[verifier::opaque]
pub open spec fn spec_unique_reasons(s: Seq<ReasonCount>) -> bool {
    forall|i: int, j: int| 0 <= i < j < s.len() ==> s[i].reason@ != s[j].reason@
}

/// The ranking is total.
proof fn lemma_rank_total(c1: u64, r1: Seq<char>, c2: u64, r2: Seq<char>)
    ensures
        spec_rank_le(c1, r1, c2, r2) || spec_rank_le(c2, r2, c1, r1),
{
    if c1 == c2 {
        crate::text::lemma_lex_le_total(r1, r2);
    }
}

/// The ranking is transitive.
proof fn lemma_rank_trans(c1: u64, r1: Seq<char>, c2: u64, r2: Seq<char>, c3: u64, r3: Seq<
    char,
>)
    requires
        spec_rank_le(c1, r1, c2, r2),
        spec_rank_le(c2, r2, c3, r3),
    ensures
        spec_rank_le(c1, r1, c3, r3),
{
    if c1 == c2 && c2 == c3 {
        crate::text::lemma_lex_le_trans(r1, r2, r3);
    }
}

fn rank_le(a: &ReasonCount, b: &ReasonCount) -> (r: bool)
    ensures
        r == spec_rank_le(a.count, a.reason@, b.count, b.reason@),
{
    if a.count > b.count {
        true
    } else if a.count == b.count {
        str_lex_le(a.reason.as_str(), b.reason.as_str())
    } else {
        false
    }
}

/// Where `e` belongs in a ranked vector: after everything ranked no worse.
fn find_insert_pos(sorted: &Vec<ReasonCount>, e: &ReasonCount) -> (p: usize)
    ensures
        p <= sorted@.len(),
        forall|k: int|
            0 <= k < p ==> spec_rank_le(
                #[trigger] sorted@[k].count,
                sorted@[k].reason@,
                e.count,
                e.reason@,
            ),
        p < sorted@.len() ==> spec_rank_le(
            e.count,
            e.reason@,
            sorted@[p as int].count,
            sorted@[p as int].reason@,
        ),
{
    let mut p: usize = 0;
    while p < sorted.len()
        invariant
            p <= sorted@.len(),
            forall|k: int|
                0 <= k < p ==> spec_rank_le(
                    #[trigger] sorted@[k].count,
                    sorted@[k].reason@,
                    e.count,
                    e.reason@,
                ),
        decreases sorted@.len() - p,
    {
        if !rank_le(&sorted[p], e) {
            proof {
                lemma_rank_total(
                    sorted@[p as int].count,
                    sorted@[p as int].reason@,
                    e.count,
                    e.reason@,
                );
            }
            return p;
        }
        p = p + 1;
    }
    p
}

fn clone_entry(e: &ReasonCount) -> (r: ReasonCount)
    ensures
        r.reason@ == e.reason@,
        r.count == e.count,
{
    ReasonCount { reason: e.reason.clone(), count: e.count }
}

/// Inserting an entry at its found position keeps the vector ranked.
proof fn lemma_step_ranked(s0: Seq<ReasonCount>, s1: Seq<ReasonCount>, e: ReasonCount, p: int)
    requires
        0 <= p <= s0.len(),
        s1 == s0.insert(p, e),
        spec_ranked(s0),
        forall|k: int|
            0 <= k < p ==> spec_rank_le(
                #[trigger] s0[k].count,
                s0[k].reason@,
                e.count,
                e.reason@,
            ),
        p < s0.len() ==> spec_rank_le(e.count, e.reason@, s0[p].count, s0[p].reason@),
    ensures
        spec_ranked(s1),
{
    reveal(spec_ranked);
    assert(forall|k: int| 0 <= k < p ==> s1[k] == s0[k]);
    assert(s1[p] == e);
    assert(forall|k: int| p < k < s1.len() ==> s1[k] == s0[k - 1]);
    assert forall|a: int, b: int| 0 <= a < b < s1.len() implies spec_rank_le(
        #[trigger] s1[a].count,
        s1[a].reason@,
        #[trigger] s1[b].count,
        s1[b].reason@,
    ) by {
        if a == p && b > p + 1 {
            lemma_rank_trans(
                e.count,
                e.reason@,
                s0[p].count,
                s0[p].reason@,
                s0[b - 1].count,
                s0[b - 1].reason@,
            );
        }
    }
}

/// Inserting the bucket `rc[i]` carries soundness, completeness and
/// uniqueness from the prefix of length `i` to the one of length `i + 1`.
proof fn lemma_top_step(
    rc: Seq<ReasonCount>,
    i: int,
    s0: Seq<ReasonCount>,
    s1: Seq<ReasonCount>,
    e: ReasonCount,
    p: int,
)
    requires
        0 <= i < rc.len(),
        0 <= p <= s0.len(),
        s1 == s0.insert(p, e),
        e.reason@ == rc[i].reason@,
        e.count == rc[i].count,
        spec_top_sound(rc, i, s0),
        spec_top_complete(rc, i, s0),
        wf_counts(rc) ==> spec_unique_reasons(s0),
    ensures
        spec_top_sound(rc, i + 1, s1),
        spec_top_complete(rc, i + 1, s1),
        wf_counts(rc) ==> spec_unique_reasons(s1),
{
    reveal(spec_top_sound);
    reveal(spec_top_complete);
    reveal(spec_unique_reasons);
    assert(forall|k: int| 0 <= k < p ==> s1[k] == s0[k]);
    assert(s1[p] == e);
    assert(forall|k: int| p < k < s1.len() ==> s1[k] == s0[k - 1]);
    assert(forall|w: int| 0 <= w < i + 1 ==> rc.take(i + 1)[w] == rc[w]);
    assert(forall|w: int| 0 <= w < i ==> rc.take(i)[w] == rc[w]);
    assert forall|j: int| 0 <= j < s1.len() implies spec_in_counts(
        rc.take(i + 1),
        #[trigger] s1[j],
    ) by {
        if j == p {
            assert(rc.take(i + 1)[i].reason@ == s1[j].reason@ && rc.take(i + 1)[i].count
                == s1[j].count);
        } else {
            let o = if j < p {
                j
            } else {
                j - 1
            };
            assert(s1[j] == s0[o]);
            assert(spec_in_counts(rc.take(i), s0[o]));
            let w = choose|w: int|
                0 <= w < rc.take(i).len() && rc.take(i)[w].reason@ == s0[o].reason@ && rc.take(
                    i,
                )[w].count == s0[o].count;
            assert(rc.take(i + 1)[w].reason@ == s1[j].reason@ && rc.take(i + 1)[w].count
                == s1[j].count);
        }
    }
    assert forall|k: int| 0 <= k < i + 1 implies spec_in_counts(s1, #[trigger] rc[k]) by {
        if k < i {
            assert(spec_in_counts(s0, rc[k]));
            let j = choose|j: int|
                0 <= j < s0.len() && s0[j].reason@ == rc[k].reason@ && s0[j].count == rc[
                    k].count;
            if j < p {
                assert(s1[j].reason@ == rc[k].reason@ && s1[j].count == rc[k].count);
            } else {
                assert(s1[j + 1].reason@ == rc[k].reason@ && s1[j + 1].count == rc[k].count);
            }
        } else {
            assert(s1[p].reason@ == rc[k].reason@ && s1[p].count == rc[k].count);
        }
    }
    if wf_counts(rc) {
        assert forall|a: int, b: int| 0 <= a < b < s1.len() implies s1[a].reason@
            != s1[b].reason@ by {
            if a == p || b == p {
                let other = if a == p {
                    b
                } else {
                    a
                };
                let o = if other < p {
                    other
                } else {
                    other - 1
                };
                assert(s1[other] == s0[o]);
                assert(spec_in_counts(rc.take(i), s0[o]));
                let w = choose|w: int|
                    0 <= w < rc.take(i).len() && rc.take(i)[w].reason@ == s0[o].reason@
                        && rc.take(i)[w].count == s0[o].count;
                if s0[o].reason@ == e.reason@ {
                    assert(rc[w].reason@ == rc[i].reason@ && w < i);
                }
            }
        }
    }
}

/// Cutting the fully ranked vector to `limit` keeps it sound, ranked and
/// duplicate-free, and every bucket left out ranks no better than the
/// last kept entry.
proof fn lemma_top_finish(
    rc: Seq<ReasonCount>,
    full: Seq<ReasonCount>,
    cut: Seq<ReasonCount>,
    limit: int,
)
    requires
        limit >= 0,
        full.len() == rc.len(),
        spec_ranked(full),
        spec_top_sound(rc, rc.len() as int, full),
        spec_top_complete(rc, rc.len() as int, full),
        wf_counts(rc) ==> spec_unique_reasons(full),
        cut == if limit <= full.len() {
            full.take(limit)
        } else {
            full
        },
    ensures
        spec_ranked(cut),
        forall|i: int| 0 <= i < cut.len() ==> spec_in_counts(rc, #[trigger] cut[i]),
        wf_counts(rc) ==> (forall|i: int, j: int|
            0 <= i < j < cut.len() ==> cut[i].reason@ != cut[j].reason@),
        wf_counts(rc) ==> (forall|j: int|
            0 <= j < rc.len() ==> ((exists|i2: int|
                0 <= i2 < cut.len() && #[trigger] cut[i2].reason@
                    == #[trigger] rc[j].reason@) || limit == 0 || (cut.len() > 0
                && spec_rank_le(
                cut[cut.len() - 1].count,
                cut[cut.len() - 1].reason@,
                rc[j].count,
                rc[j].reason@,
            )))),
{
    reveal(spec_ranked);
    reveal(spec_top_sound);
    reveal(spec_top_complete);
    reveal(spec_unique_reasons);
    assert(rc.take(rc.len() as int) =~= rc);
    assert(forall|j: int| 0 <= j < cut.len() ==> cut[j] == full[j]);
    assert forall|i: int| 0 <= i < cut.len() implies spec_in_counts(rc, #[trigger] cut[i]) by {
        assert(spec_in_counts(rc.take(rc.len() as int), full[i]));
    }
    if wf_counts(rc) {
        assert forall|j: int| 0 <= j < rc.len() implies ((exists|i2: int|
            0 <= i2 < cut.len() && #[trigger] cut[i2].reason@ == #[trigger] rc[j].reason@)
            || limit == 0 || (cut.len() > 0 && spec_rank_le(
            cut[cut.len() - 1].count,
            cut[cut.len() - 1].reason@,
            rc[j].count,
            rc[j].reason@,
        ))) by {
            assert(spec_in_counts(full, rc[j]));
            let q = choose|q: int|
                0 <= q < full.len() && full[q].reason@ == rc[j].reason@ && full[q].count == rc[
                    j].count;
            if q < cut.len() {
                assert(cut[q].reason@ == rc[j].reason@);
            } else if limit > 0 {
                assert(cut.len() == limit && limit <= full.len());
                assert(cut[limit - 1] == full[limit - 1]);
                assert(q > limit - 1);
                assert(spec_rank_le(
                    full[limit - 1].count,
                    full[limit - 1].reason@,
                    full[q].count,
                    full[q].reason@,
                ));
            }
        }
    }
}

/// An empty selection is ranked, sound, complete to bound zero, and free
/// of duplicates.
proof fn lemma_top_init(rc: Seq<ReasonCount>, s: Seq<ReasonCount>)
    requires
        s.len() == 0,
    ensures
        spec_ranked(s),
        spec_top_sound(rc, 0, s),
        spec_top_complete(rc, 0, s),
        spec_unique_reasons(s),
{
    reveal(spec_ranked);
    reveal(spec_top_sound);
    reveal(spec_top_complete);
    reveal(spec_unique_reasons);
}

/// The `limit` heaviest reason buckets in canonical order: every returned
/// entry is a bucket of the histogram, they come ranked, no reason
/// repeats, and any bucket left out ranks no better than the last kept.
pub fn top_reason_counts(stats: &ShadowStats, limit: usize) -> (r: Vec<ReasonCount>)
    ensures
        r@.len() == if limit <= stats.reason_counts@.len() {
            limit as int
        } else {
            stats.reason_counts@.len() as int
        },
        spec_ranked(r@),
        forall|i: int| 0 <= i < r@.len() ==> spec_in_counts(stats.reason_counts@, #[trigger] r@[i]),
        wf_counts(stats.reason_counts@) ==> ({
            &&& forall|i: int, j: int|
                0 <= i < j < r@.len() ==> r@[i].reason@ != r@[j].reason@
            &&& forall|j: int|
                0 <= j < stats.reason_counts@.len() ==> ((exists|i2: int|
                    0 <= i2 < r@.len() && #[trigger] r@[i2].reason@
                        == #[trigger] stats.reason_counts@[j].reason@) || limit == 0 || (
                r@.len() > 0 && spec_rank_le(
                    r@[r@.len() - 1].count,
                    r@[r@.len() - 1].reason@,
                    stats.reason_counts@[j].count,
                    stats.reason_counts@[j].reason@,
                )))
        }),
{
    let ghost rc = stats.reason_counts@;
    let mut sorted: Vec<ReasonCount> = Vec::new();
    let n = stats.reason_counts.len();
    let mut i: usize = 0;
    proof {
        lemma_top_init(rc, sorted@);
    }
    while i < n
        invariant
            rc == stats.reason_counts@,
            n == rc.len(),
            i <= n,
            sorted@.len() == i,
            spec_ranked(sorted@),
            spec_top_sound(rc, i as int, sorted@),
            spec_top_complete(rc, i as int, sorted@),
            wf_counts(rc) ==> spec_unique_reasons(sorted@),
        decreases n - i,
    {
        let e = clone_entry(&stats.reason_counts[i]);
        let ghost s0 = sorted@;
        let p = find_insert_pos(&sorted, &e);
        sorted.insert(p, e);
        proof {
            lemma_step_ranked(s0, sorted@, e, p as int);
            lemma_top_step(rc, i as int, s0, sorted@, e, p as int);
        }
        i = i + 1;
    }
    let ghost full = sorted@;
    sorted.truncate(limit);
    proof {
        assert(sorted@ =~= if limit <= full.len() {
            full.take(limit as int)
        } else {
            full
        });
        lemma_top_finish(rc, full, sorted@, limit as int);
    }
    sorted
}

/// Bumping the entry at `idx` moves exactly that key's count.
proof fn lemma_record_update(rc0: Seq<ReasonCount>, rc1: Seq<ReasonCount>, idx: int, key: Seq<
    char,
>)
    requires
        wf_counts(rc0),
        0 <= idx < rc0.len(),
        rc1.len() == rc0.len(),
        rc0[idx].reason@ == key,
        rc1[idx].reason@ == key,
        rc1[idx].count == if rc0[idx].count < u64::MAX {
            rc0[idx].count + 1
        } else {
            u64::MAX as int
        },
        forall|i: int| 0 <= i < rc0.len() && i != idx ==> rc1[i] == rc0[i],
        forall|i: int| 0 <= i < rc1.len() ==> rc1[i].reason@ == rc0[i].reason@,
        wf_counts(rc1),
    ensures
        spec_count_of(rc1, key) == if spec_count_of(rc0, key) < u64::MAX {
            spec_count_of(rc0, key) + 1
        } else {
            u64::MAX as nat
        },
        forall|k: Seq<char>| k != key ==> spec_count_of(rc1, k) == spec_count_of(rc0, k),
{
    lemma_count_of_at_index(rc0, idx);
    lemma_count_of_at_index(rc1, idx);
    assert forall|k: Seq<char>| k != key implies spec_count_of(rc1, k) == spec_count_of(
        rc0,
        k,
    ) by {
        if exists|i: int| 0 <= i < rc0.len() && rc0[i].reason@ == k {
            let i = choose|i: int| 0 <= i < rc0.len() && rc0[i].reason@ == k;
            lemma_count_of_at_index(rc0, i);
            lemma_count_of_at_index(rc1, i);
        } else {
            lemma_count_of_absent(rc0, k);
            lemma_count_of_absent(rc1, k);
            assert(forall|i: int| 0 <= i < rc1.len() ==> rc1[i].reason@ != k);
        }
    }
}

} // verus!
