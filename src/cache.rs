//! Time-to-live cache slots, one per resource kind.
//!
//! Time is a monotonic millisecond counter supplied by the caller.
use vstd::prelude::*;

verus! {

/// A cached value together with the instant it was written.
#[derive(Clone, Debug)]
pub struct CacheEntry<T> {
    pub at: Option<u64>,
    pub value: Option<T>,
}

/// The entry holds a value written strictly less than `ttl` milliseconds before `now`.
pub open spec fn fresh_at<T>(e: CacheEntry<T>, now: u64, ttl: u64) -> bool {
    &&& e.value is Some
    &&& e.at matches Some(t) && t <= now && now - t < ttl
}

impl<T> CacheEntry<T> {
    /// An empty entry: never fresh.
    pub fn new() -> (r: Self)
        ensures
            r.at is None,
            r.value is None,
    {
        CacheEntry { at: None, value: None }
    }

    /// Whether the entry can be served at `now` under a window of `ttl` milliseconds.
    pub fn is_fresh(&self, now: u64, ttl: u64) -> (r: bool)
        ensures
            r == fresh_at(*self, now, ttl),
    {
        match self.at {
            Some(t) => self.value.is_some() && t <= now && now - t < ttl,
            None => false,
        }
    }

    /// Stores `v` and stamps it with `now`, which opens the next freshness window.
    pub fn set(&mut self, v: T, now: u64)
        ensures
            final(self).value == Some(v),
            final(self).at == Some(now),
    {
        self.value = Some(v);
        self.at = Some(now);
    }

    /// The held value, if any, fresh or not.
    pub fn take_clone(&self) -> (r: Option<T>)
        where
            T: Clone,
        ensures
            r is Some == self.value is Some,
            r is Some ==> cloned(self.value->0, r->0),
    {
        self.value.clone()
    }

    /// The held value when it is fresh at `now`; `None` tells the caller to recompute and `set`.
    pub fn read_if_fresh(&self, now: u64, ttl: u64) -> (r: Option<&T>)
        ensures
            fresh_at(*self, now, ttl) ==> r == Some(&self.value->0),
            !fresh_at(*self, now, ttl) ==> r is None,
    {
        if self.is_fresh(now, ttl) {
            self.value.as_ref()
        } else {
            None
        }
    }
}

/// Writing a value and reading it back strictly before the window closes gives that value.
pub proof fn lemma_fresh_after_write<T>(e: CacheEntry<T>, v: T, written: u64, now: u64, ttl: u64)
    requires
        e.value == Some(v),
        e.at == Some(written),
        written <= now,
        now - written < ttl,
    ensures
        fresh_at(e, now, ttl),
        e.value->0 == v,
{
}

/// Once the window has closed, the entry is not served, however it was written.
pub proof fn lemma_stale_after_ttl<T>(e: CacheEntry<T>, now: u64, ttl: u64)
    requires
        e.at matches Some(t) && now >= t + ttl,
    ensures
        !fresh_at(e, now, ttl),
{
}

/// How long a sensor reading (temperature, GPU) is reused.
pub const SENSOR_TTL_MS: u64 = 1500;

/// A sensor slot: a reading and the instant its window opened.
pub struct SensorCache<T> {
    pub at: Option<u64>,
    pub value: Option<T>,
}

impl<T> SensorCache<T> {
    pub open spec fn window_open(&self, now: u64) -> bool {
        self.at matches Some(t) && t <= now && now - t < SENSOR_TTL_MS
    }

    pub fn new() -> (r: Self)
        ensures
            r.at is None,
            r.value is None,
    {
        SensorCache { at: None, value: None }
    }

    /// Keeps the slot while its window is open; otherwise opens a new window at `now`
    /// and drops the reading, which tells the caller to take a new one.
    pub fn claim(&mut self, now: u64)
        ensures
            old(self).window_open(now) ==> *final(self) == *old(self),
            !old(self).window_open(now) ==> final(self).at == Some(now) && final(self).value is None,
    {
        let open = match self.at {
            Some(t) => t <= now && now - t < SENSOR_TTL_MS,
            None => false,
        };
        if !open {
            self.at = Some(now);
            self.value = None;
        }
    }

    /// The reading held, if any.
    pub fn cached(&self) -> (r: Option<&T>)
        ensures
            r is Some == self.value is Some,
            r is Some ==> *r->0 == self.value->0,
    {
        self.value.as_ref()
    }

    /// Stores a reading (or its absence) taken at `now`.
    pub fn set(&mut self, v: Option<T>, now: u64)
        ensures
            final(self).value == v,
            final(self).at == Some(now),
    {
        self.value = v;
        self.at = Some(now);
    }
}

} // verus!
