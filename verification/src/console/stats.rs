//! Counters behind the periodic statistics report, and the downlink-format distribution.
use vstd::prelude::*;

verus! {

/// Number of downlink formats counted in the distribution (0 to 31).
pub const DF_KINDS: usize = 32;

// ---------------------------------------------------------------------------
// Message counters
// ---------------------------------------------------------------------------

/// Parity, correction, position-decoding and drop counts since the start (or last reset).
#[derive(Debug, Clone, Copy, PartialEq, Eq, Structural)]
pub struct MessageCounts {
    pub crc_fail_count: u32,
    pub crc_total_count: u32,
    pub bitfix_count: u32,
    pub cpr_global_ok: u32,
    pub cpr_global_bad: u32,
    pub cpr_local_ok: u32,
    pub drop_count: u64,
}

/// All counts zero.
pub open spec fn zero_counts() -> MessageCounts {
    MessageCounts {
        crc_fail_count: 0,
        crc_total_count: 0,
        bitfix_count: 0,
        cpr_global_ok: 0,
        cpr_global_bad: 0,
        cpr_local_ok: 0,
        drop_count: 0,
    }
}

/// The counts after one message: every message is counted; a failed parity check counts as
/// a failure, a good one that needed correction as a bit fix; a decoded position counts as
/// local or global, one not decoded as a bad global decode.
pub open spec fn counts_after(c: MessageCounts, crc_ok: bool, corrected: bool, cpr_ok: bool, cpr_local: bool) -> MessageCounts {
    MessageCounts {
        crc_total_count: (c.crc_total_count + 1) as u32,
        crc_fail_count: if !crc_ok {
            (c.crc_fail_count + 1) as u32
        } else {
            c.crc_fail_count
        },
        bitfix_count: if crc_ok && corrected {
            (c.bitfix_count + 1) as u32
        } else {
            c.bitfix_count
        },
        cpr_local_ok: if cpr_ok && cpr_local {
            (c.cpr_local_ok + 1) as u32
        } else {
            c.cpr_local_ok
        },
        cpr_global_ok: if cpr_ok && !cpr_local {
            (c.cpr_global_ok + 1) as u32
        } else {
            c.cpr_global_ok
        },
        cpr_global_bad: if !cpr_ok {
            (c.cpr_global_bad + 1) as u32
        } else {
            c.cpr_global_bad
        },
        ..c
    }
}

/// No message counter is at its limit.
pub open spec fn counts_have_room(c: MessageCounts) -> bool {
    &&& c.crc_total_count < u32::MAX
    &&& c.crc_fail_count < u32::MAX
    &&& c.bitfix_count < u32::MAX
    &&& c.cpr_local_ok < u32::MAX
    &&& c.cpr_global_ok < u32::MAX
    &&& c.cpr_global_bad < u32::MAX
}

impl MessageCounts {
    /// All counts zero.
    pub fn new() -> (c: Self)
        ensures
            c == zero_counts(),
    {
        MessageCounts {
            crc_fail_count: 0,
            crc_total_count: 0,
            bitfix_count: 0,
            cpr_global_ok: 0,
            cpr_global_bad: 0,
            cpr_local_ok: 0,
            drop_count: 0,
        }
    }

    /// Whether one more message can be counted (see `counts_have_room`).
    pub fn has_room(&self) -> (b: bool)
        ensures
            b == counts_have_room(*self),
    {
        self.crc_total_count < u32::MAX && self.crc_fail_count < u32::MAX && self.bitfix_count
            < u32::MAX && self.cpr_local_ok < u32::MAX && self.cpr_global_ok < u32::MAX
            && self.cpr_global_bad < u32::MAX
    }

    /// Count one message (see `counts_after`).
    pub fn record(&mut self, crc_ok: bool, corrected: bool, cpr_ok: bool, cpr_local: bool)
        requires
            counts_have_room(*old(self)),
        ensures
            *final(self) == counts_after(*old(self), crc_ok, corrected, cpr_ok, cpr_local),
    {
        let c = *self;
        *self = MessageCounts {
            crc_total_count: c.crc_total_count + 1,
            crc_fail_count: if !crc_ok {
                c.crc_fail_count + 1
            } else {
                c.crc_fail_count
            },
            bitfix_count: if crc_ok && corrected {
                c.bitfix_count + 1
            } else {
                c.bitfix_count
            },
            cpr_local_ok: if cpr_ok && cpr_local {
                c.cpr_local_ok + 1
            } else {
                c.cpr_local_ok
            },
            cpr_global_ok: if cpr_ok && !cpr_local {
                c.cpr_global_ok + 1
            } else {
                c.cpr_global_ok
            },
            cpr_global_bad: if !cpr_ok {
                c.cpr_global_bad + 1
            } else {
                c.cpr_global_bad
            },
            ..c
        };
    }

    /// Count one dropped buffer.
    pub fn record_drop(&mut self)
        requires
            old(self).drop_count < u64::MAX,
        ensures
            *final(self) == (MessageCounts { drop_count: (old(self).drop_count + 1) as u64, ..*old(self) }),
    {
        self.drop_count = self.drop_count + 1;
    }
}

/// Every message is counted once, and as exactly one of failed, corrected or good without
/// correction: the failures and bit fixes never outnumber the messages.
pub proof fn lemma_counts_stay_within_total(c: MessageCounts, crc_ok: bool, corrected: bool, cpr_ok: bool, cpr_local: bool)
    requires
        counts_have_room(c),
        c.crc_fail_count + c.bitfix_count <= c.crc_total_count,
        c.cpr_global_ok + c.cpr_global_bad + c.cpr_local_ok == c.crc_total_count,
    ensures
        counts_after(c, crc_ok, corrected, cpr_ok, cpr_local).crc_total_count == c.crc_total_count + 1,
        counts_after(c, crc_ok, corrected, cpr_ok, cpr_local).crc_fail_count + counts_after(c, crc_ok, corrected, cpr_ok, cpr_local).bitfix_count
            <= counts_after(c, crc_ok, corrected, cpr_ok, cpr_local).crc_total_count,
        counts_after(c, crc_ok, corrected, cpr_ok, cpr_local).cpr_global_ok + counts_after(c, crc_ok, corrected, cpr_ok, cpr_local).cpr_global_bad
            + counts_after(c, crc_ok, corrected, cpr_ok, cpr_local).cpr_local_ok
            == counts_after(c, crc_ok, corrected, cpr_ok, cpr_local).crc_total_count,
{
}

// ---------------------------------------------------------------------------
// Downlink-format distribution
// ---------------------------------------------------------------------------

/// How many of `dfs` are `d`.
pub open spec fn df_count(dfs: Seq<u8>, d: int) -> nat
    decreases dfs.len(),
{
    if dfs.len() == 0 {
        0
    } else {
        df_count(dfs.drop_last(), d) + if dfs.last() == d {
            1nat
        } else {
            0nat
        }
    }
}

/// Report order of distribution entries: larger count first, then smaller format.
pub open spec fn ranks_before(x: (u8, u32), y: (u8, u32)) -> bool {
    x.1 > y.1 || (x.1 == y.1 && x.0 < y.0)
}

/// `r` is the distribution of `dfs`: one entry for every format below 32 that occurs, with
/// its count, in report order.
pub open spec fn is_distribution(r: Seq<(u8, u32)>, dfs: Seq<u8>) -> bool {
    &&& forall|i: int|
        0 <= i < r.len() ==> (#[trigger] r[i]).0 < DF_KINDS && r[i].1 == df_count(dfs, r[i].0 as int)
            && r[i].1 > 0
    &&& forall|d: u8|
        d < DF_KINDS && df_count(dfs, d as int) > 0 ==> exists|i: int|
            0 <= i < r.len() && (#[trigger] r[i]).0 == d
    &&& forall|i: int, j: int| 0 <= i < j < r.len() ==> ranks_before(r[i], r[j])
}

/// A prefix holds no more of a format than the whole.
proof fn lemma_df_count_prefix(dfs: Seq<u8>, j: int, d: int)
    requires
        0 <= j <= dfs.len(),
    ensures
        df_count(dfs.take(j), d) <= df_count(dfs, d),
    decreases dfs.len(),
{
    if j < dfs.len() {
        assert(dfs.drop_last().take(j) =~= dfs.take(j));
        lemma_df_count_prefix(dfs.drop_last(), j, d);
    } else {
        assert(dfs.take(j) =~= dfs);
    }
}

/// Count the occurrences of each format below 32.
fn count_formats(dfs: &[u8]) -> (counts: Vec<u32>)
    requires
        forall|d: int| 0 <= d < DF_KINDS ==> #[trigger] df_count(dfs@, d) <= u32::MAX,
    ensures
        counts@.len() == DF_KINDS,
        forall|d: int| 0 <= d < DF_KINDS ==> #[trigger] counts@[d] == df_count(dfs@, d),
{
    let mut counts: Vec<u32> = Vec::new();
    while counts.len() < DF_KINDS
        invariant
            counts@.len() <= DF_KINDS,
            forall|d: int| 0 <= d < counts@.len() ==> #[trigger] counts@[d] == 0,
        decreases DF_KINDS - counts@.len(),
    {
        counts.push(0);
    }
    let mut i: usize = 0;
    while i < dfs.len()
        invariant
            i <= dfs@.len(),
            forall|d: int| 0 <= d < DF_KINDS ==> #[trigger] df_count(dfs@, d) <= u32::MAX,
            counts@.len() == DF_KINDS,
            forall|d: int| 0 <= d < DF_KINDS ==> #[trigger] counts@[d] == df_count(dfs@.take(i as int), d),
        decreases dfs@.len() - i,
    {
        let ghost before = dfs@.take(i as int);
        let ghost after = dfs@.take(i as int + 1);
        assert(after.drop_last() =~= before);
        assert(after.last() == dfs@[i as int]);
        let df = dfs[i];
        if (df as usize) < DF_KINDS {
            let k = df as usize;
            proof {
                lemma_df_count_prefix(dfs@, i + 1, k as int);
                assert(df_count(dfs@, k as int) <= u32::MAX);
            }
            let c = counts[k];
            counts.set(k, c + 1);
        }
        i = i + 1;
        assert forall|d: int| 0 <= d < DF_KINDS implies #[trigger] counts@[d] == df_count(
            dfs@.take(i as int),
            d,
        ) by {
            assert(dfs@.take(i as int) == after);
        }
    }
    assert(dfs@.take(dfs@.len() as int) =~= dfs@);
    counts
}

/// The distribution of downlink formats (see `is_distribution`): each format below 32 that
/// occurs, with how often, most frequent first and, among equals, the smaller format first.
pub fn df_distribution(dfs: &[u8]) -> (r: Vec<(u8, u32)>)
    requires
        forall|d: int| 0 <= d < DF_KINDS ==> #[trigger] df_count(dfs@, d) <= u32::MAX,
    ensures
        is_distribution(r@, dfs@),
{
    let counts = count_formats(dfs);
    let mut r: Vec<(u8, u32)> = Vec::new();
    let mut d: usize = 0;
    while d < DF_KINDS
        invariant
            d <= DF_KINDS,
            counts@.len() == DF_KINDS,
            forall|e: int| 0 <= e < DF_KINDS ==> #[trigger] counts@[e] == df_count(dfs@, e),
            forall|i: int|
                0 <= i < r@.len() ==> (#[trigger] r@[i]).0 < d && r@[i].1 == df_count(
                    dfs@,
                    r@[i].0 as int,
                ) && r@[i].1 > 0,
            forall|e: u8|
                e < d && df_count(dfs@, e as int) > 0 ==> exists|i: int|
                    0 <= i < r@.len() && (#[trigger] r@[i]).0 == e,
            forall|i: int, j: int| 0 <= i < j < r@.len() ==> ranks_before(r@[i], r@[j]),
        decreases DF_KINDS - d,
    {
        let c = counts[d];
        if c > 0 {
            let mut p: usize = 0;
            while p < r.len() && r[p].1 >= c
                invariant
                    p <= r@.len(),
                    forall|i: int| 0 <= i < p ==> (#[trigger] r@[i]).1 >= c,
                decreases r@.len() - p,
            {
                p = p + 1;
            }
            let ghost old_r = r@;
            let entry = (d as u8, c);
            r.insert(p, entry);
            proof {
                assert(r@ == old_r.insert(p as int, entry));
                assert forall|i: int, j: int| 0 <= i < j < r@.len() implies ranks_before(
                    r@[i],
                    r@[j],
                ) by {
                    if j < p {
                        assert(r@[i] == old_r[i] && r@[j] == old_r[j]);
                    } else if j == p {
                        assert(r@[i] == old_r[i]);
                        assert(old_r[i].1 >= c);
                        assert(old_r[i].0 < d);
                    } else if i == p {
                        assert(r@[j] == old_r[j - 1]);
                        if p < old_r.len() {
                            assert(!(old_r[p as int].1 >= c));
                            if j - 1 > p {
                                assert(ranks_before(old_r[p as int], old_r[j - 1]));
                            }
                        }
                    } else if i < p {
                        assert(r@[i] == old_r[i] && r@[j] == old_r[j - 1]);
                    } else {
                        assert(r@[i] == old_r[i - 1] && r@[j] == old_r[j - 1]);
                    }
                }
                assert forall|e: u8|
                    e < d + 1 && df_count(dfs@, e as int) > 0 implies exists|i: int|
                    0 <= i < r@.len() && (#[trigger] r@[i]).0 == e by {
                    if e == d {
                        assert(r@[p as int].0 == e);
                    } else {
                        let i0 = choose|i: int| 0 <= i < old_r.len() && (#[trigger] old_r[i]).0 == e;
                        if i0 < p {
                            assert(r@[i0].0 == e);
                        } else {
                            assert(r@[i0 + 1].0 == e);
                        }
                    }
                }
            }
        }
        d = d + 1;
    }
    r
}

} // verus!
