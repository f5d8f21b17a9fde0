//! The GPU probe: tried once, remembered whether present or absent, and
//! rate-limited by a short-lived reading cache while present.
use crate::cache::SensorCache;
use crate::types::GpuMetrics;
use vstd::prelude::*;

verus! {

/// What the first probe found.
#[derive(Clone, Copy, Debug, PartialEq, Eq, Structural)]
pub enum GpuPresence {
    Unknown,
    Present,
    Absent,
}

/// What a metrics collection does about GPUs.
#[derive(Clone, Copy, Debug, PartialEq, Eq, Structural)]
pub enum GpuStep {
    /// Report no GPU readings and touch no hardware.
    Skip,
    /// Report the cached readings.
    UseCached,
    /// Query the hardware, then hand the outcome to [`GpuProbe::set_gpus`].
    Probe,
}

/// Probe state and the reading cache.
pub struct GpuProbe {
    pub presence: GpuPresence,
    pub cache: SensorCache<Vec<GpuMetrics>>,
}

/// The step taken by a collection at `now`.
pub open spec fn gpu_step(p: GpuProbe, now: u64, enabled: bool) -> GpuStep {
    if !enabled || p.presence == GpuPresence::Absent {
        GpuStep::Skip
    } else if p.cache.window_open(now) && p.cache.value is Some {
        GpuStep::UseCached
    } else {
        GpuStep::Probe
    }
}

/// Presence after a probe outcome: only the first outcome is recorded.
pub open spec fn presence_after(p: GpuPresence, found: bool) -> GpuPresence {
    if p == GpuPresence::Unknown {
        if found {
            GpuPresence::Present
        } else {
            GpuPresence::Absent
        }
    } else {
        p
    }
}

impl GpuProbe {
    /// Nothing probed yet.
    pub fn new() -> (r: Self)
        ensures
            r.presence == GpuPresence::Unknown,
            r.cache.at is None,
            r.cache.value is None,
    {
        GpuProbe { presence: GpuPresence::Unknown, cache: SensorCache::new() }
    }

    /// Decides what a collection at `now` does; when the reading window has
    /// closed it opens a new one, as a probe is then due.
    pub fn cached_gpus(&mut self, now: u64, enabled: bool) -> (r: GpuStep)
        ensures
            r == gpu_step(*old(self), now, enabled),
            r == GpuStep::Skip ==> *final(self) == *old(self),
            final(self).presence == old(self).presence,
            r == GpuStep::UseCached ==> *final(self) == *old(self),
            r == GpuStep::Probe ==> final(self).cache.value is None,
            r == GpuStep::Probe ==> final(self).cache.at == if old(self).cache.window_open(now) {
                old(self).cache.at
            } else {
                Some(now)
            },
    {
        if !enabled {
            return GpuStep::Skip;
        }
        if self.presence == GpuPresence::Absent {
            return GpuStep::Skip;
        }
        self.cache.claim(now);
        if self.cache.cached().is_some() {
            GpuStep::UseCached
        } else {
            GpuStep::Probe
        }
    }

    /// Records a probe outcome at `now`; an empty list counts as no GPU.
    /// Returns the readings to report.
    pub fn set_gpus(&mut self, found: Option<Vec<GpuMetrics>>, now: u64) -> (r: Option<Vec<GpuMetrics>>)
        ensures
            r == (match found {
                Some(v) => if v@.len() > 0 { Some(v) } else { None },
                None => None,
            }),
            final(self).presence == presence_after(old(self).presence, r is Some),
            final(self).cache.at == Some(now),
            final(self).cache.value is Some == r is Some,
    {
        let readings = match found {
            Some(v) => if v.len() > 0 { Some(v) } else { None },
            None => None,
        };
        if self.presence == GpuPresence::Unknown {
            self.presence = if readings.is_some() { GpuPresence::Present } else { GpuPresence::Absent };
        }
        let kept = readings.clone();
        self.cache.set(kept, now);
        readings
    }
}

/// Once the first probe has found no GPU, no later collection probes again
/// and the state stays as it is.
pub proof fn lemma_absent_is_sticky(p: GpuProbe, now: u64, enabled: bool)
    requires
        p.presence == GpuPresence::Absent,
    ensures
        gpu_step(p, now, enabled) == GpuStep::Skip,
        presence_after(p.presence, true) == GpuPresence::Absent,
{
}

} // verus!
