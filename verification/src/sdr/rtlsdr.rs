//! A mock SDR device that plays back canned samples, and gain statistics.
use vstd::prelude::*;

verus! {

/// Plays back canned sample data, for running without hardware.
pub struct MockSdrDevice {
    data: Vec<u8>,
    pos: usize,
}

impl MockSdrDevice {
    /// The canned samples.
    pub closed spec fn samples(&self) -> Seq<u8> {
        self.data@
    }

    /// How many samples have been played back.
    pub closed spec fn position(&self) -> nat {
        self.pos as nat
    }

    /// The position never passes the end of the samples.
    pub closed spec fn wf(&self) -> bool {
        self.pos <= self.data@.len()
    }

    /// A device that will play back `data` from the start.
    pub fn new(data: Vec<u8>) -> (d: Self)
        ensures
            d.wf(),
            d.samples() == data@,
            d.position() == 0,
    {
        MockSdrDevice { data, pos: 0 }
    }

    /// Start playing back from the beginning again.
    pub fn rewind(&mut self)
        requires
            old(self).wf(),
        ensures
            final(self).wf(),
            final(self).samples() == old(self).samples(),
            final(self).position() == 0,
    {
        self.pos = 0;
    }

    /// Copy the next samples into `buf`, as many as fit and remain; return how many.
    pub fn read_samples(&mut self, buf: &mut [u8]) -> (n: usize)
        requires
            old(self).wf(),
        ensures
            final(self).wf(),
            final(self).samples() == old(self).samples(),
            n == (if old(buf)@.len() < old(self).samples().len() - old(self).position() {
                old(buf)@.len() as int
            } else {
                old(self).samples().len() - old(self).position()
            }),
            final(self).position() == old(self).position() + n,
            final(buf)@.len() == old(buf)@.len(),
            final(buf)@.subrange(0, n as int) == old(self).samples().subrange(
                old(self).position() as int,
                old(self).position() + n,
            ),
            final(buf)@.subrange(n as int, old(buf)@.len() as int) == old(buf)@.subrange(
                n as int,
                old(buf)@.len() as int,
            ),
    {
        let pos = self.pos;
        let len = self.data.len();
        let remaining = len - pos;
        let to_read = if buf.len() < remaining {
            buf.len()
        } else {
            remaining
        };
        let mut i: usize = 0;
        while i < to_read
            invariant
                i <= to_read,
                to_read <= buf@.len(),
                buf@.len() == old(buf)@.len(),
                pos == self.pos,
                len == self.data@.len(),
                pos + to_read <= len,
                forall|j: int| 0 <= j < i ==> buf@[j] == self.data@[pos + j],
                forall|j: int| to_read <= j < buf@.len() ==> buf@[j] == old(buf)@[j],
            decreases to_read - i,
        {
            buf[i] = self.data[pos + i];
            i += 1;
        }
        assert(buf@.subrange(0, to_read as int) =~= self.data@.subrange(
            self.pos as int,
            self.pos + to_read,
        ));
        assert(buf@.subrange(to_read as int, buf@.len() as int) =~= old(buf)@.subrange(
            to_read as int,
            old(buf)@.len() as int,
        ));
        self.pos += to_read;
        to_read
    }
}

/// Counters of the automatic gain control.
#[derive(Debug, Clone, Copy)]
pub struct GainStats {
    pub loud_events: u64,
    pub noise_low_samples: u64,
    pub noise_high_samples: u64,
    pub total_samples: u64,
}

} // verus!
