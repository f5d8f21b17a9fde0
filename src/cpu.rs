//! Per-process CPU shares from successive cumulative tick counters.
//!
//! A share is reported in hundredths of a percent: `10000` is the whole machine.
use std::collections::HashMap;
use vstd::prelude::*;

verus! {

broadcast use vstd::std_specs::hash::group_hash_axioms;

/// The full-scale share, 100%.
pub const FULL_SHARE: u32 = 10000;

/// Share of `du` process ticks over `dt` system ticks, capped at 100%; zero when no time passed.
pub open spec fn share(du: nat, dt: nat) -> nat {
    if dt == 0 {
        0
    } else if du * 10000 / dt >= 10000 {
        10000
    } else {
        du * 10000 / dt
    }
}

/// The share of one process in a round, from the previous and current system totals
/// and its previous and current counters (`None`: no sample).
pub open spec fn round_share(last_total: u64, total_now: u64, prev: Option<u64>, now: Option<u64>) -> nat {
    if last_total == 0 || total_now <= last_total {
        0
    } else {
        match (prev, now) {
            (Some(p), Some(c)) => share(if c >= p { (c - p) as nat } else { 0 }, (total_now - last_total) as nat),
            _ => 0,
        }
    }
}

/// Computes `share(du, dt)`.
pub fn cpu_share(du: u64, dt: u64) -> (r: u32)
    ensures
        r as nat == share(du as nat, dt as nat),
        r <= FULL_SHARE,
{
    if dt == 0 {
        return 0;
    }
    let scaled: u128 = (du as u128) * 10000u128 / (dt as u128);
    if scaled >= 10000 {
        FULL_SHARE
    } else {
        scaled as u32
    }
}

/// The counters that the current round leaves for the next one: every pid that had a sample.
pub open spec fn sample_map(samples: Seq<(u32, Option<u64>)>) -> Map<u32, u64>
    decreases samples.len(),
{
    if samples.len() == 0 {
        Map::empty()
    } else {
        let rest = sample_map(samples.drop_last());
        match samples.last().1 {
            Some(v) => rest.insert(samples.last().0, v),
            None => rest,
        }
    }
}

/// Previous system total and per-pid counters, replaced wholesale by each round.
pub struct ProcCpuTracker {
    pub last_total: u64,
    pub last_per_pid: HashMap<u32, u64>,
}

impl ProcCpuTracker {
    /// A tracker that has seen no round yet.
    pub fn new() -> (r: Self)
        ensures
            r.last_total == 0,
            r.last_per_pid@ == Map::<u32, u64>::empty(),
    {
        ProcCpuTracker { last_total: 0, last_per_pid: HashMap::new() }
    }

    /// The previous counter of `pid`, if it had one.
    pub open spec fn prev_of(&self, pid: u32) -> Option<u64> {
        if self.last_per_pid@.contains_key(pid) {
            Some(self.last_per_pid@[pid])
        } else {
            None
        }
    }

    /// Takes one round of samples (`pid`, counter if readable) and the system total,
    /// and returns each process's share in the order given.
    pub fn observe(&mut self, total_now: u64, samples: &Vec<(u32, Option<u64>)>) -> (r: Vec<u32>)
        ensures
            r@.len() == samples@.len(),
            forall|i: int| 0 <= i < samples@.len() ==> #[trigger] r@[i] as nat == round_share(
                old(self).last_total,
                total_now,
                old(self).prev_of(samples@[i].0),
                samples@[i].1,
            ),
            final(self).last_total == total_now,
            final(self).last_per_pid@ == sample_map(samples@),
    {
        let last_total = self.last_total;
        let fresh_round = last_total == 0 || total_now <= last_total;
        let dt: u64 = if fresh_round { 0 } else { total_now - last_total };
        let mut current: HashMap<u32, u64> = HashMap::new();
        let mut out: Vec<u32> = Vec::new();
        let mut i: usize = 0;
        while i < samples.len()
            invariant
                i <= samples@.len(),
                out@.len() == i,
                self.last_total == last_total,
                self.last_per_pid == old(self).last_per_pid,
                last_total == old(self).last_total,
                fresh_round == (last_total == 0 || total_now <= last_total),
                !fresh_round ==> dt == total_now - last_total,
                current@ == sample_map(samples@.subrange(0, i as int)),
                forall|j: int| 0 <= j < i ==> #[trigger] out@[j] as nat == round_share(
                    last_total,
                    total_now,
                    old(self).prev_of(samples@[j].0),
                    samples@[j].1,
                ),
            decreases samples@.len() - i,
        {
            let (pid, now) = samples[i];
            let s: u32 = if fresh_round {
                0
            } else {
                match (self.last_per_pid.get(&pid), now) {
                    (Some(p), Some(c)) => {
                        let du: u64 = if c >= *p { c - *p } else { 0 };
                        cpu_share(du, dt)
                    },
                    _ => 0,
                }
            };
            out.push(s);
            if let Some(c) = now {
                current.insert(pid, c);
            }
            proof {
                let sub = samples@.subrange(0, i + 1);
                assert(sub.drop_last() =~= samples@.subrange(0, i as int));
                assert(sub.last() == samples@[i as int]);
            }
            i = i + 1;
        }
        assert(samples@.subrange(0, i as int) =~= samples@);
        self.last_total = total_now;
        self.last_per_pid = current;
        out
    }
}

/// A round with no elapsed system time, or the first round, gives every process a zero share.
pub proof fn lemma_stalled_round_is_zero(
    last_total: u64,
    total_now: u64,
    prev: Option<u64>,
    now: Option<u64>,
)
    requires
        last_total == 0 || total_now <= last_total,
    ensures
        round_share(last_total, total_now, prev, now) == 0,
{
}

/// A process seen for the first time gets a zero share, whatever its counter.
pub proof fn lemma_first_sample_is_zero(last_total: u64, total_now: u64, now: Option<u64>)
    ensures
        round_share(last_total, total_now, None, now) == 0,
{
}

/// Every share lies within 0..=100%.
pub proof fn lemma_share_bounded(last_total: u64, total_now: u64, prev: Option<u64>, now: Option<u64>)
    ensures
        round_share(last_total, total_now, prev, now) <= 10000,
{
}

} // verus!
