//! Set of recently seen ICAO addresses, hashed into fixed buckets.
use vstd::prelude::*;

verus! {

/// Number of hash buckets.
pub const ICAO_FILTER_SIZE: usize = 4096;

/// A set of 24-bit aircraft addresses, bucketed by `addr % ICAO_FILTER_SIZE`.
pub struct IcaoFilter {
    buckets: Vec<Vec<u32>>,
}

impl View for IcaoFilter {
    type V = Set<u32>;

    closed spec fn view(&self) -> Set<u32> {
        Set::new(|a: u32| self.buckets@[(a % 4096) as int]@.contains(a))
    }
}

impl IcaoFilter {
    /// The bucket array is complete and each address sits in its own bucket.
    pub closed spec fn wf(&self) -> bool {
        &&& self.buckets@.len() == ICAO_FILTER_SIZE
        &&& forall|i: int, j: int|
            0 <= i < 4096 && 0 <= j < self.buckets@[i]@.len() ==> #[trigger] self.buckets@[i]@[j]
                % 4096 == i
    }

    /// An empty filter.
    pub fn new() -> (f: Self)
        ensures
            f.wf(),
            f@ == Set::<u32>::empty(),
    {
        let mut buckets: Vec<Vec<u32>> = Vec::new();
        let mut i: usize = 0;
        while i < ICAO_FILTER_SIZE
            invariant
                i <= ICAO_FILTER_SIZE,
                buckets@.len() == i,
                forall|k: int| 0 <= k < i ==> (#[trigger] buckets@[k])@.len() == 0,
            decreases ICAO_FILTER_SIZE - i,
        {
            buckets.push(Vec::new());
            i = i + 1;
        }
        let f = IcaoFilter { buckets };
        assert(f@ =~= Set::<u32>::empty()) by {
            assert forall|a: u32| !f@.contains(a) by {
                assert(f.buckets@[(a % 4096) as int]@.len() == 0);
            }
        }
        f
    }

    /// Record an address.
    pub fn add(&mut self, addr: u32)
        requires
            old(self).wf(),
        ensures
            final(self).wf(),
            final(self)@ == old(self)@.insert(addr),
    {
        let idx = (addr as usize) % ICAO_FILTER_SIZE;
        let ghost old_view = self@;
        let ghost old_buckets = self.buckets@;
        if !vec_contains(&self.buckets[idx], addr) {
            let mut bucket = take_bucket(&mut self.buckets, idx);
            bucket.push(addr);
            let ghost b = bucket@;
            put_bucket(&mut self.buckets, idx, bucket);
            assert(b == old_buckets[idx as int]@.push(addr));
            assert forall|a: u32| #[trigger] self@.contains(a) == old_view.insert(addr).contains(a) by {
                let i = (a % 4096) as int;
                if i == idx {
                    assert(b.contains(a) == (old_buckets[i]@.contains(a) || a == addr)) by {
                        if a == addr {
                            assert(b[b.len() - 1] == a);
                        }
                        if old_buckets[i]@.contains(a) {
                            let j = choose|j: int| 0 <= j < old_buckets[i]@.len() && old_buckets[i]@[j] == a;
                            assert(b[j] == a);
                        }
                        if b.contains(a) && a != addr {
                            let j = choose|j: int| 0 <= j < b.len() && b[j] == a;
                            assert(old_buckets[i]@[j] == a);
                        }
                    }
                } else {
                    assert(self.buckets@[i] == old_buckets[i]);
                }
            }
            assert forall|i: int, j: int|
                0 <= i < 4096 && 0 <= j < self.buckets@[i]@.len() implies #[trigger] self.buckets@[i]@[j]
                % 4096 == i by {
                if i == idx && j == b.len() - 1 {
                    assert(self.buckets@[i]@[j] == addr);
                } else if i == idx {
                    assert(self.buckets@[i]@[j] == old_buckets[i]@[j]);
                } else {
                    assert(self.buckets@[i] == old_buckets[i]);
                }
            }
        }
        assert(self@ =~= old_view.insert(addr));
    }

    /// Whether an address has been recorded.
    pub fn test(&self, addr: u32) -> (found: bool)
        requires
            self.wf(),
        ensures
            found == self@.contains(addr),
    {
        let idx = (addr as usize) % ICAO_FILTER_SIZE;
        vec_contains(&self.buckets[idx], addr)
    }

    /// Forget every address.
    pub fn clear(&mut self)
        requires
            old(self).wf(),
        ensures
            final(self).wf(),
            final(self)@ == Set::<u32>::empty(),
    {
        let mut i: usize = 0;
        while i < ICAO_FILTER_SIZE
            invariant
                i <= ICAO_FILTER_SIZE,
                self.buckets@.len() == ICAO_FILTER_SIZE,
                forall|k: int| 0 <= k < i ==> (#[trigger] self.buckets@[k])@.len() == 0,
                forall|k: int, j: int|
                    0 <= k < 4096 && 0 <= j < self.buckets@[k]@.len() ==> #[trigger] self.buckets@[k]@[j]
                        % 4096 == k,
            decreases ICAO_FILTER_SIZE - i,
        {
            put_bucket(&mut self.buckets, i, Vec::new());
            i = i + 1;
        }
        assert(self@ =~= Set::<u32>::empty()) by {
            assert forall|a: u32| !self@.contains(a) by {
                assert(self.buckets@[(a % 4096) as int]@.len() == 0);
            }
        }
    }
}

fn vec_contains(v: &Vec<u32>, x: u32) -> (r: bool)
    ensures
        r == v@.contains(x),
{
    let mut i: usize = 0;
    while i < v.len()
        invariant
            i <= v@.len(),
            forall|k: int| 0 <= k < i ==> v@[k] != x,
        decreases v@.len() - i,
    {
        if v[i] == x {
            assert(v@[i as int] == x);
            return true;
        }
        i = i + 1;
    }
    false
}

fn take_bucket(buckets: &mut Vec<Vec<u32>>, idx: usize) -> (b: Vec<u32>)
    requires
        idx < old(buckets)@.len(),
    ensures
        b == old(buckets)@[idx as int],
        final(buckets)@.len() == old(buckets)@.len(),
        forall|k: int| 0 <= k < old(buckets)@.len() && k != idx ==> final(buckets)@[k] == old(buckets)@[k],
        final(buckets)@[idx as int]@.len() == 0,
{
    let mut b: Vec<u32> = Vec::new();
    std::mem::swap(&mut b, &mut buckets[idx]);
    b
}

fn put_bucket(buckets: &mut Vec<Vec<u32>>, idx: usize, b: Vec<u32>)
    requires
        idx < old(buckets)@.len(),
    ensures
        final(buckets)@ == old(buckets)@.update(idx as int, b),
{
    buckets.set(idx, b);
}

/// Record an address in the filter.
pub fn icao_filter_add(filter: &mut IcaoFilter, addr: u32)
    requires
        old(filter).wf(),
    ensures
        final(filter).wf(),
        final(filter)@ == old(filter)@.insert(addr),
{
    filter.add(addr);
}

/// Whether the filter holds an address.
pub fn icao_filter_test(filter: &IcaoFilter, addr: u32) -> (found: bool)
    requires
        filter.wf(),
    ensures
        found == filter@.contains(addr),
{
    filter.test(addr)
}

/// Empty the filter.
pub fn clear_filter(filter: &mut IcaoFilter)
    requires
        old(filter).wf(),
    ensures
        final(filter).wf(),
        final(filter)@ == Set::<u32>::empty(),
{
    filter.clear();
}

/// A recorded address tests present; recording leaves every other address as it was; a
/// cleared filter holds nothing.
pub proof fn lemma_filter_add_test(before: Set<u32>, added: u32, other: u32)
    ensures
        before.insert(added).contains(added),
        other != added ==> (before.insert(added).contains(other) == before.contains(other)),
        !Set::<u32>::empty().contains(other),
{
}

} // verus!
