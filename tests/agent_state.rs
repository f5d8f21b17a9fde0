use socktop::cache::{CacheEntry, SensorCache, SENSOR_TTL_MS};
use socktop::cpu::{cpu_share, ProcCpuTracker};
use socktop::gpu::{GpuPresence, GpuProbe, GpuStep};
use socktop::types::{DiskInfo, GpuMetrics};

fn disk(name: &str) -> DiskInfo {
    DiskInfo { name: name.to_string(), total: 100, available: 40 }
}

#[test]
fn cache_serves_value_until_ttl() {
    let mut c: CacheEntry<Vec<DiskInfo>> = CacheEntry::new();
    assert!(!c.is_fresh(0, 1000));
    assert!(c.read_if_fresh(0, 1000).is_none());
    c.set(vec![disk("sda")], 5000);
    let got = c.read_if_fresh(5999, 1000).expect("fresh");
    assert_eq!(got.len(), 1);
    assert_eq!(got[0].name, "sda");
    assert_eq!(got[0].total, 100);
    assert_eq!(got[0].available, 40);
    assert!(c.is_fresh(5000, 1000));
    assert_eq!(c.take_clone().unwrap()[0].name, "sda");
}

#[test]
fn cache_expires_after_ttl() {
    let mut c: CacheEntry<u64> = CacheEntry::new();
    c.set(7, 1000);
    assert!(c.read_if_fresh(2000, 1000).is_none());
    assert!(c.read_if_fresh(5000, 1000).is_none());
    assert_eq!(c.read_if_fresh(1999, 1000), Some(&7));
    // a write stamps the time and opens a new window
    c.set(8, 5000);
    assert_eq!(c.read_if_fresh(5000, 1000), Some(&8));
}

#[test]
fn sensor_cache_claim_opens_a_window() {
    let mut s: SensorCache<u32> = SensorCache::new();
    s.claim(10);
    assert_eq!(s.at, Some(10));
    assert!(s.cached().is_none());
    s.set(Some(55), 12);
    s.claim(12 + SENSOR_TTL_MS - 1);
    assert_eq!(s.cached(), Some(&55));
    s.claim(12 + SENSOR_TTL_MS);
    assert!(s.cached().is_none());
}

#[test]
fn cpu_delta_percent() {
    assert_eq!(cpu_share(40, 200), 2000);
    assert_eq!(cpu_share(1, 3), 3333);
    assert_eq!(cpu_share(500, 200), 10000);
    assert_eq!(cpu_share(5, 0), 0);
    let mut t = ProcCpuTracker::new();
    let first = t.observe(1000, &vec![(7, Some(50)), (8, Some(123456))]);
    assert_eq!(first, vec![0, 0]);
    let second = t.observe(1200, &vec![(7, Some(90)), (8, Some(123456)), (9, Some(77)), (10, None)]);
    assert_eq!(second, vec![2000, 0, 0, 0]);
    assert_eq!(t.last_total, 1200);
    assert_eq!(t.last_per_pid.len(), 3);
    assert_eq!(t.last_per_pid.get(&9), Some(&77));
    assert!(t.last_per_pid.get(&10).is_none());
}

#[test]
fn cpu_stalled_total_gives_zero() {
    let mut t = ProcCpuTracker::new();
    t.observe(1000, &vec![(1, Some(10))]);
    assert_eq!(t.observe(1000, &vec![(1, Some(500))]), vec![0]);
    assert_eq!(t.observe(900, &vec![(1, Some(900))]), vec![0]);
    // counters that went backwards count as no work
    assert_eq!(t.observe(1900, &vec![(1, Some(100))]), vec![0]);
}

fn gpu(name: &str) -> GpuMetrics {
    GpuMetrics { name: name.to_string(), utilization_gpu_pct: 30, mem_used_bytes: 1, mem_total_bytes: 2 }
}

#[test]
fn gpu_absence_is_sticky() {
    let mut p = GpuProbe::new();
    let mut probes = 0;
    for round in 0..20u64 {
        match p.cached_gpus(round * 1000, true) {
            GpuStep::Probe => {
                probes += 1;
                p.set_gpus(None, round * 1000);
            }
            GpuStep::UseCached => panic!("nothing cached"),
            GpuStep::Skip => {}
        }
    }
    assert_eq!(probes, 1);
    assert_eq!(p.presence, GpuPresence::Absent);
    // an empty list also counts as absent
    let mut q = GpuProbe::new();
    assert_eq!(q.cached_gpus(0, true), GpuStep::Probe);
    assert!(q.set_gpus(Some(vec![]), 0).is_none());
    assert_eq!(q.presence, GpuPresence::Absent);
}

#[test]
fn gpu_present_is_cached_then_probed_again() {
    let mut p = GpuProbe::new();
    assert_eq!(p.cached_gpus(0, false), GpuStep::Skip);
    assert_eq!(p.presence, GpuPresence::Unknown);
    assert_eq!(p.cached_gpus(0, true), GpuStep::Probe);
    let got = p.set_gpus(Some(vec![gpu("card0")]), 0).expect("readings");
    assert_eq!(got[0].name, "card0");
    assert_eq!(p.presence, GpuPresence::Present);
    assert_eq!(p.cached_gpus(100, true), GpuStep::UseCached);
    assert_eq!(p.cache.cached().unwrap()[0].name, "card0");
    assert_eq!(p.cached_gpus(1500, true), GpuStep::Probe);
    // a later failure does not make the GPU absent
    assert!(p.set_gpus(None, 1500).is_none());
    assert_eq!(p.presence, GpuPresence::Present);
    assert_eq!(p.cached_gpus(1600, true), GpuStep::Probe);
}
