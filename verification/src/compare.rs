//! Comparing the frames two Beast sources sent in one window, key by key.
use crate::net::protocols::beast::BeastFrame;
use std::collections::HashMap;
use vstd::prelude::*;

verus! {

broadcast use vstd::std_specs::hash::group_hash_axioms;

// ---------------------------------------------------------------------------
// Keys
// ---------------------------------------------------------------------------

/// The comparison key of a payload: its address field (bytes 1-3; 0 when the payload is
/// shorter than four bytes) in the upper 24 bits, its downlink format (the top five bits of
/// byte 0; 0 when empty) in the lowest byte.
pub open spec fn key_of(p: Seq<u8>) -> u32 {
    let df: u32 = if p.len() >= 1 {
        (p[0] >> 3u8) as u32
    } else {
        0
    };
    let addr: u32 = if p.len() >= 4 {
        ((p[1] as u32) << 16u32) | ((p[2] as u32) << 8u32) | (p[3] as u32)
    } else {
        0
    };
    (addr << 8u32) | df
}

/// The key of a payload (see `key_of`).
pub fn frame_key(payload: &[u8]) -> (k: u32)
    ensures
        k == key_of(payload@),
{
    let df: u32 = if payload.len() >= 1 {
        (payload[0] >> 3) as u32
    } else {
        0
    };
    let addr: u32 = if payload.len() >= 4 {
        ((payload[1] as u32) << 16) | ((payload[2] as u32) << 8) | (payload[3] as u32)
    } else {
        0
    };
    (addr << 8) | df
}

/// The address part of a key.
pub open spec fn key_address(k: u32) -> u32 {
    k >> 8u32
}

/// The downlink-format part of a key.
pub open spec fn key_format(k: u32) -> u8 {
    (k & 0xFFu32) as u8
}

/// The downlink format a key holds (see `key_format`).
pub fn key_df(k: u32) -> (df: u8)
    ensures
        df == key_format(k),
{
    (k & 0xFF) as u8
}

/// The address a key holds (see `key_address`).
pub fn key_addr(k: u32) -> (addr: u32)
    ensures
        addr == key_address(k),
{
    k >> 8
}

/// A key gives back the address and downlink format it was made of.
pub proof fn lemma_key_parts(p: Seq<u8>)
    requires
        p.len() >= 4,
    ensures
        key_address(key_of(p)) == ((p[1] as u32) << 16u32) | ((p[2] as u32) << 8u32) | (p[3] as u32),
        key_format(key_of(p)) == p[0] >> 3u8,
{
    let (b0, b1, b2, b3) = (p[0], p[1], p[2], p[3]);
    assert((((((b1 as u32) << 16u32) | ((b2 as u32) << 8u32) | (b3 as u32)) << 8u32) | ((b0 >> 3u8) as u32)) >> 8u32
        == ((b1 as u32) << 16u32) | ((b2 as u32) << 8u32) | (b3 as u32)) by (bit_vector);
    assert(((((((b1 as u32) << 16u32) | ((b2 as u32) << 8u32) | (b3 as u32)) << 8u32) | ((b0 >> 3u8) as u32)) & 0xFFu32) as u8
        == b0 >> 3u8) by (bit_vector);
}

/// The last payload of each key in a batch of frames.
pub open spec fn key_map(fs: Seq<BeastFrame>) -> Map<u32, Seq<u8>>
    decreases fs.len(),
{
    if fs.len() == 0 {
        Map::empty()
    } else {
        key_map(fs.drop_last()).insert(key_of(fs.last().payload@), fs.last().payload@)
    }
}

/// The last payload of each key in a batch (see `key_map`).
pub fn build_key_map(frames: &[BeastFrame]) -> (m: HashMap<u32, Vec<u8>>)
    ensures
        m@.dom() == key_map(frames@).dom(),
        forall|k: u32| #[trigger] m@.contains_key(k) ==> m@[k]@ == key_map(frames@)[k],
{
    let mut m: HashMap<u32, Vec<u8>> = HashMap::new();
    let mut i: usize = 0;
    while i < frames.len()
        invariant
            i <= frames@.len(),
            m@.dom() == key_map(frames@.take(i as int)).dom(),
            forall|k: u32| #[trigger] m@.contains_key(k) ==> m@[k]@ == key_map(frames@.take(i as int))[k],
        decreases frames@.len() - i,
    {
        let f = &frames[i];
        let k = frame_key(f.payload.as_slice());
        let p = vstd::slice::slice_to_vec(f.payload.as_slice());
        m.insert(k, p);
        proof {
            let prev = frames@.take(i as int);
            let next = frames@.take(i + 1);
            assert(next.drop_last() =~= prev);
            assert(next.last() == frames@[i as int]);
            assert(m@.dom() =~= key_map(next).dom());
        }
        i = i + 1;
    }
    assert(frames@.take(frames@.len() as int) =~= frames@);
    m
}

/// Every key is smaller than the one after it (so no key occurs twice).
pub open spec fn strictly_increasing(s: Seq<u32>) -> bool {
    forall|i: int, j: int| 0 <= i < j < s.len() ==> s[i] < s[j]
}

/// Put `k` into a strictly increasing list of keys, where it is not there yet.
fn add_key(ks: &mut Vec<u32>, k: u32)
    requires
        strictly_increasing(old(ks)@),
    ensures
        strictly_increasing(final(ks)@),
        forall|x: u32| #[trigger] final(ks)@.contains(x) <==> (old(ks)@.contains(x) || x == k),
{
    let mut idx: usize = 0;
    while idx < ks.len() && ks[idx] < k
        invariant
            idx <= ks@.len(),
            forall|j: int| 0 <= j < idx ==> ks@[j] < k,
        decreases ks@.len() - idx,
    {
        idx = idx + 1;
    }
    if idx < ks.len() && ks[idx] == k {
        return;
    }
    let ghost s = ks@;
    ks.insert(idx, k);
    proof {
        let t = ks@;
        assert(t == s.insert(idx as int, k));
        assert forall|j: int| idx <= j < s.len() implies s[j] > k by {
            assert(s[idx as int] >= k);
            if j > idx {
                assert(s[idx as int] < s[j]);
            }
        }
        assert forall|i: int, j: int| 0 <= i < j < t.len() implies t[i] < t[j] by {
            if j < idx {
            } else if j == idx {
            } else if i < idx {
            } else if i == idx {
            } else {
                assert(s[i - 1] < s[j - 1]);
            }
        }
        assert forall|x: u32| #[trigger] t.contains(x) <==> (s.contains(x) || x == k) by {
            if s.contains(x) {
                let j = choose|j: int| 0 <= j < s.len() && s[j] == x;
                if j < idx {
                    assert(t[j] == x);
                } else {
                    assert(t[j + 1] == x);
                }
            }
            if x == k {
                assert(t[idx as int] == x);
            }
            if t.contains(x) {
                let j = choose|j: int| 0 <= j < t.len() && t[j] == x;
                if j < idx {
                    assert(s[j] == x);
                } else if j > idx {
                    assert(s[j - 1] == x);
                }
            }
        }
    }
}

/// Every key that either side sent in a window, in increasing order, each once.
pub fn window_keys(left: &[BeastFrame], right: &[BeastFrame]) -> (ks: Vec<u32>)
    ensures
        strictly_increasing(ks@),
        forall|k: u32| #[trigger] ks@.contains(k) <==> (key_map(left@).dom().contains(k)
            || key_map(right@).dom().contains(k)),
{
    let mut ks: Vec<u32> = Vec::new();
    let mut i: usize = 0;
    while i < left.len()
        invariant
            i <= left@.len(),
            strictly_increasing(ks@),
            forall|k: u32| #[trigger] ks@.contains(k) <==> key_map(left@.take(i as int)).dom().contains(k),
        decreases left@.len() - i,
    {
        let k = frame_key(left[i].payload.as_slice());
        add_key(&mut ks, k);
        proof {
            let next = left@.take(i + 1);
            assert(next.drop_last() =~= left@.take(i as int));
            assert(next.last() == left@[i as int]);
        }
        i = i + 1;
    }
    assert(left@.take(left@.len() as int) =~= left@);
    let mut i: usize = 0;
    while i < right.len()
        invariant
            i <= right@.len(),
            strictly_increasing(ks@),
            forall|k: u32| #[trigger] ks@.contains(k) <==> (key_map(left@).dom().contains(k)
                || key_map(right@.take(i as int)).dom().contains(k)),
        decreases right@.len() - i,
    {
        let k = frame_key(right[i].payload.as_slice());
        add_key(&mut ks, k);
        proof {
            let next = right@.take(i + 1);
            assert(next.drop_last() =~= right@.take(i as int));
            assert(next.last() == right@[i as int]);
        }
        i = i + 1;
    }
    assert(right@.take(right@.len() as int) =~= right@);
    ks
}

/// How one key (address and downlink format) compares between the two sides.
#[derive(Debug, Clone, Copy, PartialEq, Eq, Structural)]
pub enum WindowMatch {
    /// Both sides sent the same payload.
    Matched,
    /// Both sides sent a payload for an extended squitter (DF17, 18 or 19), which may vary.
    MatchedVarying,
    /// Both sides sent different payloads.
    Differs,
    /// Only the right side sent the key.
    RightOnly,
    /// Only the left side sent the key.
    LeftOnly,
}

/// How a key with downlink format `df` compares, given what each side sent for it (at least
/// one side sent something).
pub open spec fn window_match(df: u8, left: Option<Seq<u8>>, right: Option<Seq<u8>>) -> WindowMatch {
    match (left, right) {
        (Some(l), Some(r)) => if l == r {
            WindowMatch::Matched
        } else if df == 17 || df == 18 || df == 19 {
            WindowMatch::MatchedVarying
        } else {
            WindowMatch::Differs
        },
        (None, Some(_)) => WindowMatch::RightOnly,
        _ => WindowMatch::LeftOnly,
    }
}

/// The payload a side sent, as a sequence.
pub open spec fn sent(p: Option<&Vec<u8>>) -> Option<Seq<u8>> {
    match p {
        Some(v) => Some(v@),
        None => None,
    }
}

fn same_bytes(a: &Vec<u8>, b: &Vec<u8>) -> (eq: bool)
    ensures
        eq == (a@ == b@),
{
    if a.len() != b.len() {
        return false;
    }
    let mut i: usize = 0;
    while i < a.len()
        invariant
            i <= a@.len() == b@.len(),
            forall|j: int| 0 <= j < i ==> a@[j] == b@[j],
        decreases a@.len() - i,
    {
        if a[i] != b[i] {
            return false;
        }
        i = i + 1;
    }
    assert(a@ =~= b@);
    true
}

/// Compare what the two sides sent for a key (see `window_match`).
pub fn classify_key(df: u8, left: Option<&Vec<u8>>, right: Option<&Vec<u8>>) -> (m: WindowMatch)
    requires
        left.is_some() || right.is_some(),
    ensures
        m == window_match(df, sent(left), sent(right)),
{
    match (left, right) {
        (Some(l), Some(r)) => {
            if same_bytes(l, r) {
                WindowMatch::Matched
            } else if df == 17 || df == 18 || df == 19 {
                WindowMatch::MatchedVarying
            } else {
                WindowMatch::Differs
            }
        },
        (None, Some(_)) => WindowMatch::RightOnly,
        _ => WindowMatch::LeftOnly,
    }
}

/// How many keys of a window fell in each class.
#[derive(Debug, Clone, Copy, PartialEq, Eq, Structural)]
pub struct WindowCounts {
    pub matched: usize,
    pub matched_varies: usize,
    pub diff: usize,
    pub left_only: usize,
    pub right_only: usize,
}

/// The counts after one more key of class `m`.
pub open spec fn counted(c: WindowCounts, m: WindowMatch) -> WindowCounts {
    match m {
        WindowMatch::Matched => WindowCounts { matched: (c.matched + 1) as usize, ..c },
        WindowMatch::MatchedVarying => WindowCounts {
            matched_varies: (c.matched_varies + 1) as usize,
            ..c
        },
        WindowMatch::Differs => WindowCounts { diff: (c.diff + 1) as usize, ..c },
        WindowMatch::LeftOnly => WindowCounts { left_only: (c.left_only + 1) as usize, ..c },
        WindowMatch::RightOnly => WindowCounts { right_only: (c.right_only + 1) as usize, ..c },
    }
}

/// Whether the counter that a key of class `m` raises can still be raised.
pub open spec fn has_room(c: WindowCounts, m: WindowMatch) -> bool {
    match m {
        WindowMatch::Matched => c.matched < usize::MAX,
        WindowMatch::MatchedVarying => c.matched_varies < usize::MAX,
        WindowMatch::Differs => c.diff < usize::MAX,
        WindowMatch::LeftOnly => c.left_only < usize::MAX,
        WindowMatch::RightOnly => c.right_only < usize::MAX,
    }
}

impl WindowCounts {
    /// No keys counted.
    pub fn new() -> (c: Self)
        ensures
            c == (WindowCounts { matched: 0, matched_varies: 0, diff: 0, left_only: 0, right_only: 0 }),
    {
        WindowCounts { matched: 0, matched_varies: 0, diff: 0, left_only: 0, right_only: 0 }
    }

    /// Count one more key of class `m`.
    pub fn record(&mut self, m: WindowMatch)
        requires
            has_room(*old(self), m),
        ensures
            *final(self) == counted(*old(self), m),
    {
        match m {
            WindowMatch::Matched => self.matched = self.matched + 1,
            WindowMatch::MatchedVarying => self.matched_varies = self.matched_varies + 1,
            WindowMatch::Differs => self.diff = self.diff + 1,
            WindowMatch::LeftOnly => self.left_only = self.left_only + 1,
            WindowMatch::RightOnly => self.right_only = self.right_only + 1,
        }
    }

    /// Whether any key was counted.
    pub fn any(&self) -> (b: bool)
        ensures
            b == (self.matched > 0 || self.matched_varies > 0 || self.diff > 0 || self.left_only
                > 0 || self.right_only > 0),
    {
        self.matched > 0 || self.matched_varies > 0 || self.diff > 0 || self.left_only > 0
            || self.right_only > 0
    }
}

/// The keys counted in each class, all told.
pub open spec fn counted_keys(c: WindowCounts) -> int {
    c.matched + c.matched_varies + c.diff + c.left_only + c.right_only
}

/// The counts of a list of classes, from none.
pub open spec fn tally(ms: Seq<WindowMatch>) -> WindowCounts
    decreases ms.len(),
{
    if ms.len() == 0 {
        WindowCounts { matched: 0, matched_varies: 0, diff: 0, left_only: 0, right_only: 0 }
    } else {
        counted(tally(ms.drop_last()), ms.last())
    }
}

/// What one side sent for key `k`, if anything.
pub open spec fn side(m: Map<u32, Seq<u8>>, k: u32) -> Option<Seq<u8>> {
    if m.dom().contains(k) {
        Some(m[k])
    } else {
        None
    }
}

/// One window compared: each side's last payload per key, every key in increasing order, the
/// class of each key, and the counts.
pub struct WindowDiff {
    pub left: HashMap<u32, Vec<u8>>,
    pub right: HashMap<u32, Vec<u8>>,
    pub keys: Vec<u32>,
    pub matches: Vec<WindowMatch>,
    pub counts: WindowCounts,
}

/// Compare the frames two sources sent in one window: each key that either side sent is
/// classed (see `window_match`) by the last payload each side sent for it, and counted.
pub fn compare_window(left: &[BeastFrame], right: &[BeastFrame]) -> (d: WindowDiff)
    ensures
        d.left@.dom() == key_map(left@).dom(),
        forall|k: u32| #[trigger] d.left@.contains_key(k) ==> d.left@[k]@ == key_map(left@)[k],
        d.right@.dom() == key_map(right@).dom(),
        forall|k: u32| #[trigger] d.right@.contains_key(k) ==> d.right@[k]@ == key_map(right@)[k],
        strictly_increasing(d.keys@),
        forall|k: u32| #[trigger] d.keys@.contains(k) <==> (key_map(left@).dom().contains(k)
            || key_map(right@).dom().contains(k)),
        d.matches@.len() == d.keys@.len(),
        forall|j: int| #![trigger d.matches@[j]] 0 <= j < d.keys@.len() ==> d.matches@[j] == window_match(
            key_format(d.keys@[j]),
            side(key_map(left@), d.keys@[j]),
            side(key_map(right@), d.keys@[j]),
        ),
        d.counts == tally(d.matches@),
        counted_keys(d.counts) == d.keys@.len(),
{
    let lm = build_key_map(left);
    let rm = build_key_map(right);
    let keys = window_keys(left, right);
    let mut matches: Vec<WindowMatch> = Vec::new();
    let mut counts = WindowCounts::new();
    let mut i: usize = 0;
    while i < keys.len()
        invariant
            i <= keys@.len(),
            lm@.dom() == key_map(left@).dom(),
            forall|k: u32| #[trigger] lm@.contains_key(k) ==> lm@[k]@ == key_map(left@)[k],
            rm@.dom() == key_map(right@).dom(),
            forall|k: u32| #[trigger] rm@.contains_key(k) ==> rm@[k]@ == key_map(right@)[k],
            forall|k: u32| #[trigger] keys@.contains(k) <==> (key_map(left@).dom().contains(k)
                || key_map(right@).dom().contains(k)),
            matches@.len() == i,
            forall|j: int| #![trigger matches@[j]] 0 <= j < i ==> matches@[j] == window_match(
                key_format(keys@[j]),
                side(key_map(left@), keys@[j]),
                side(key_map(right@), keys@[j]),
            ),
            counts == tally(matches@),
            counted_keys(counts) == i,
        decreases keys@.len() - i,
    {
        let k = keys[i];
        assert(keys@.contains(k)) by {
            assert(keys@[i as int] == k);
        }
        let l = lm.get(&k);
        let r = rm.get(&k);
        assert(sent(l) == side(key_map(left@), k));
        assert(sent(r) == side(key_map(right@), k));
        let m = classify_key(key_df(k), l, r);
        let ghost before = matches@;
        counts.record(m);
        matches.push(m);
        proof {
            assert(matches@.drop_last() =~= before);
        }
        i = i + 1;
    }
    WindowDiff { left: lm, right: rm, keys, matches, counts }
}

// ---------------------------------------------------------------------------
// Windows
// ---------------------------------------------------------------------------

/// Whether a comparison run is over: it has a duration (0 runs without end) and the elapsed
/// seconds have reached it.
pub fn windows_done(elapsed_secs: u64, duration_secs: u64) -> (done: bool)
    ensures
        done == (duration_secs > 0 && elapsed_secs >= duration_secs),
{
    duration_secs > 0 && elapsed_secs >= duration_secs
}

/// The window that starts at `elapsed_secs`: its first second, the second it is reported to
/// end at (its end, but not past the duration), and the elapsed seconds after it.
pub fn window_bounds(elapsed_secs: u64, window_secs: u64, duration_secs: u64) -> (r: (u64, u64, u64))
    requires
        elapsed_secs + window_secs <= u64::MAX,
    ensures
        r.0 == elapsed_secs,
        r.2 == elapsed_secs + window_secs,
        r.1 == (if elapsed_secs + window_secs < duration_secs {
            elapsed_secs + window_secs
        } else {
            duration_secs as int
        }),
{
    let next = elapsed_secs + window_secs;
    let end = if next < duration_secs {
        next
    } else {
        duration_secs
    };
    (elapsed_secs, end, next)
}

/// A payload always matches itself.
pub proof fn lemma_same_payload_matches(df: u8, p: Seq<u8>)
    ensures
        window_match(df, Some(p), Some(p)) == WindowMatch::Matched,
{
}

} // verus!
