//! Decisions of the receive loop: the sample window each read is demodulated over, and
//! automatic gain steps.
use crate::demod::demod_2400::MagBufStats;
use vstd::prelude::*;

verus! {

// ---------------------------------------------------------------------------
// Sample windows
// ---------------------------------------------------------------------------

/// The last `k` elements of `s` (all of it when shorter).
pub open spec fn last_bytes(s: Seq<u8>, k: int) -> Seq<u8> {
    if s.len() <= k {
        s
    } else {
        s.subrange(s.len() - k, s.len() as int)
    }
}

/// Keep in `tail` the last `tail.len()` bytes of the stream `tail` followed by the first
/// `n` bytes of `data`, so that the next window starts with them.
pub fn carry_overlap(tail: &mut Vec<u8>, data: &[u8], n: usize)
    requires
        n <= data@.len(),
    ensures
        final(tail)@.len() == old(tail)@.len(),
        final(tail)@ == last_bytes(old(tail)@ + data@.take(n as int), old(tail)@.len() as int),
{
    let len = tail.len();
    let keep_from = if n < len {
        n
    } else {
        len
    };
    let ghost whole = old(tail)@ + data@.take(n as int);
    let mut out: Vec<u8> = Vec::new();
    let mut i: usize = keep_from;
    while i < len
        invariant
            keep_from <= i <= len,
            len == tail@.len(),
            tail@ == old(tail)@,
            out@ == tail@.subrange(keep_from as int, i as int),
        decreases len - i,
    {
        out.push(tail[i]);
        i = i + 1;
    }
    let start = n - keep_from;
    let mut j: usize = start;
    while j < n
        invariant
            start <= j <= n,
            n <= data@.len(),
            start == n - keep_from,
            keep_from <= n,
            out@ == tail@.subrange(keep_from as int, len as int) + data@.subrange(start as int, j as int),
        decreases n - j,
    {
        out.push(data[j]);
        j = j + 1;
    }
    proof {
        let target = last_bytes(whole, len as int);
        assert(whole.len() == len + n);
        assert(out@.len() == len);
        assert forall|k: int| 0 <= k < len implies out@[k] == target[k] by {
            assert(target[k] == whole[n + k]);
            if k < len - keep_from {
                assert(out@[k] == tail@[keep_from + k]);
                assert(whole[n + k] == old(tail)@[n + k]);
            } else {
                assert(out@[k] == data@[start + k - (len - keep_from)]);
            }
        }
        assert(out@ =~= target);
    }
    *tail = out;
}

/// Put into `window` the bytes `tail` followed by the first `n` bytes of `data`; the rest of
/// `window` is left as it was.
pub fn fill_window(window: &mut Vec<u8>, tail: &[u8], data: &[u8], n: usize)
    requires
        n <= data@.len(),
        tail@.len() + n <= old(window)@.len(),
    ensures
        final(window)@.len() == old(window)@.len(),
        final(window)@.take(tail@.len() + n) == tail@ + data@.take(n as int),
        final(window)@.skip(tail@.len() + n) == old(window)@.skip(tail@.len() + n),
{
    let t = tail.len();
    let wl = window.len();
    let mut i: usize = 0;
    while i < t
        invariant
            i <= t,
            t == tail@.len(),
            t + n <= window@.len(),
            window@.len() == old(window)@.len(),
            forall|k: int| 0 <= k < i ==> window@[k] == tail@[k],
            forall|k: int| t <= k < window@.len() ==> window@[k] == old(window)@[k],
        decreases t - i,
    {
        window.set(i, tail[i]);
        i = i + 1;
    }
    let mut j: usize = 0;
    while j < n
        invariant
            j <= n,
            n <= data@.len(),
            t == tail@.len(),
            t + n <= window@.len(),
            wl == window@.len(),
            window@.len() == old(window)@.len(),
            forall|k: int| 0 <= k < t ==> window@[k] == tail@[k],
            forall|k: int| 0 <= k < j ==> window@[t + k] == data@[k],
            forall|k: int| t + n <= k < window@.len() ==> window@[k] == old(window)@[k],
        decreases n - j,
    {
        window.set(t + j, data[j]);
        j = j + 1;
    }
    assert(window@.take((t + n) as int) =~= tail@ + data@.take(n as int));
    assert(window@.skip((t + n) as int) =~= old(window)@.skip((t + n) as int));
}

/// Carrying over keeps the end of the whole stream: when the tail held the last bytes of what
/// came before, after a read it holds the last bytes of everything so far.
pub proof fn lemma_carry_follows_stream(before: Seq<u8>, tail: Seq<u8>, data: Seq<u8>)
    requires
        before.len() >= tail.len(),
        tail == last_bytes(before, tail.len() as int),
    ensures
        last_bytes(tail + data, tail.len() as int) == last_bytes(before + data, tail.len() as int),
{
    let k = tail.len() as int;
    let a = tail + data;
    let b = before + data;
    assert(last_bytes(a, k) =~= last_bytes(b, k)) by {
        if a.len() > k {
            assert forall|i: int| 0 <= i < k implies last_bytes(a, k)[i] == last_bytes(b, k)[i] by {
                let ia = a.len() - k + i;
                let ib = b.len() - k + i;
                if ia < k {
                    assert(a[ia] == tail[ia]);
                    assert(ib < before.len());
                    assert(b[ib] == before[ib]);
                    assert(tail[ia] == before[before.len() - k + ia]);
                } else {
                    assert(a[ia] == data[ia - k]);
                    assert(b[ib] == data[ib - before.len()]);
                }
            }
        }
    }
}

// ---------------------------------------------------------------------------
// Automatic gain
// ---------------------------------------------------------------------------

/// Which way automatic gain control moves the gain after a buffer.
#[derive(Debug, Clone, Copy, PartialEq, Eq, Structural)]
pub enum GainStep {
    Keep,
    Lower,
    Raise,
}

/// The gain step for a buffer of `count` samples: lower when loud events outnumber ten
/// times the high-noise samples, raise when low-noise samples are more than half the buffer
/// (its sample count taken modulo 2^32), keep otherwise.
pub open spec fn gain_step_for(stats: MagBufStats, count: usize) -> GainStep {
    if stats.loud_events > stats.noise_high_samples * 10 {
        GainStep::Lower
    } else if stats.noise_low_samples > (count as u32) / 2 {
        GainStep::Raise
    } else {
        GainStep::Keep
    }
}

/// The gain step for a buffer (see `gain_step_for`).
pub fn gain_step(stats: &MagBufStats, count: usize) -> (step: GainStep)
    requires
        stats.noise_high_samples * 10 <= u32::MAX,
    ensures
        step == gain_step_for(*stats, count),
{
    if stats.loud_events > stats.noise_high_samples * 10 {
        GainStep::Lower
    } else if stats.noise_low_samples > (count as u32) / 2 {
        GainStep::Raise
    } else {
        GainStep::Keep
    }
}

} // verus!
