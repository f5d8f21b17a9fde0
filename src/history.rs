//! Bounded history buffers behind the client's charts.
use std::collections::VecDeque;
use vstd::prelude::*;

verus! {

/// `h` after appending `v` to a buffer that holds at most `cap` items
/// (the oldest item leaves when the buffer is full).
pub open spec fn capped_push<T>(h: Seq<T>, v: T, cap: usize) -> Seq<T> {
    if h.len() == cap && h.len() > 0 {
        h.drop_first().push(v)
    } else {
        h.push(v)
    }
}

/// Appends `v`, dropping the oldest item when the buffer already holds `cap`.
pub fn push_capped<T>(dq: &mut VecDeque<T>, v: T, cap: usize)
    requires
        old(dq)@.len() < usize::MAX,
    ensures
        final(dq)@ == capped_push(old(dq)@, v, cap),
{
    if dq.len() == cap {
        dq.pop_front();
    }
    dq.push_back(v);
    proof {
        if old(dq)@.len() == cap && cap > 0 {
            assert(old(dq)@.subrange(1, old(dq)@.len() as int) =~= old(dq)@.drop_first());
        }
    }
}

/// One capped history per CPU core.
pub struct PerCoreHistory {
    pub deques: Vec<VecDeque<u16>>,
    pub cap: usize,
}

impl PerCoreHistory {
    /// No cores yet; each core's history will hold at most `cap` samples.
    pub fn new(cap: usize) -> (r: Self)
        ensures
            r.deques@.len() == 0,
            r.cap == cap,
    {
        PerCoreHistory { deques: Vec::new(), cap }
    }

    /// Keeps one history per core: when the core count changes, every history starts empty.
    pub fn ensure_cores(&mut self, n: usize)
        ensures
            final(self).cap == old(self).cap,
            final(self).deques@.len() == n,
            old(self).deques@.len() == n ==> final(self).deques == old(self).deques,
            old(self).deques@.len() != n ==> forall|i: int| 0 <= i < n ==> (#[trigger] final(self).deques@[i])@.len() == 0,
    {
        if self.deques.len() == n {
            return;
        }
        let mut fresh: Vec<VecDeque<u16>> = Vec::new();
        let mut i: usize = 0;
        while i < n
            invariant
                i <= n,
                fresh@.len() == i,
                forall|j: int| 0 <= j < i ==> (#[trigger] fresh@[j])@.len() == 0,
            decreases n - i,
        {
            fresh.push(VecDeque::new());
            i = i + 1;
        }
        self.deques = fresh;
    }

    /// Appends one sample (a percentage, 0..=100) per core.
    pub fn push_samples(&mut self, samples: &[u16])
        requires
            forall|i: int| 0 <= i < old(self).deques@.len() ==> (#[trigger] old(self).deques@[i])@.len() < usize::MAX,
        ensures
            final(self).cap == old(self).cap,
            final(self).deques@.len() == samples@.len(),
            old(self).deques@.len() == samples@.len() ==> forall|i: int| 0 <= i < samples@.len() ==>
                (#[trigger] final(self).deques@[i])@ == capped_push(old(self).deques@[i]@, samples@[i], old(self).cap),
            old(self).deques@.len() != samples@.len() ==> forall|i: int| 0 <= i < samples@.len() ==>
                (#[trigger] final(self).deques@[i])@ == seq![samples@[i]],
    {
        self.ensure_cores(samples.len());
        let ghost start = self.deques@;
        let mut i: usize = 0;
        while i < samples.len()
            invariant
                self.cap == old(self).cap,
                self.deques@.len() == samples@.len(),
                start.len() == samples@.len(),
                old(self).deques@.len() == samples@.len() ==> start == old(self).deques@,
                old(self).deques@.len() != samples@.len() ==> forall|j: int| 0 <= j < samples@.len() ==> (#[trigger] start[j])@.len() == 0,
                forall|j: int| 0 <= j < start.len() ==> (#[trigger] start[j])@.len() < usize::MAX,
                i <= samples@.len(),
                forall|j: int| 0 <= j < i ==> (#[trigger] self.deques@[j])@ == capped_push(start[j]@, samples@[j], self.cap),
                forall|j: int| i <= j < samples@.len() ==> #[trigger] self.deques@[j] == start[j],
            decreases samples@.len() - i,
        {
            push_capped(&mut self.deques[i], samples[i], self.cap);
            i = i + 1;
        }
        proof {
            if old(self).deques@.len() != samples@.len() {
                assert forall|i: int| 0 <= i < samples@.len() implies (#[trigger] self.deques@[i])@ == seq![samples@[i]] by {
                    assert(start[i]@.len() == 0);
                    assert(start[i]@.push(samples@[i]) =~= seq![samples@[i]]);
                }
            }
        }
    }
}

} // verus!
