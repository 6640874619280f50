use asteria::arena::FrameArena;
use asteria::cache::LruCache;
use asteria::devtools::config::{AofConfig, AofFlags};
use asteria::devtools::metrics::{EnergyDiagnostics, EnergyImpact};
use asteria::pool::Pool;

#[test]
fn lru_cache_evicts_least_recently_used() {
    let mut cache: LruCache<u64, &str> = LruCache::new(2);
    cache.insert(1, "one");
    cache.insert(2, "two");
    assert_eq!(cache.get(&1), Some(&"one"));
    cache.insert(3, "three");
    assert_eq!(cache.len(), 2);
    assert_eq!(cache.get(&2), None);
    assert_eq!(cache.get(&1), Some(&"one"));
    assert_eq!(cache.get(&3), Some(&"three"));
}

#[test]
fn lru_cache_replaces_and_removes() {
    let mut cache: LruCache<String, u32> = LruCache::new(4);
    assert!(cache.is_empty());
    cache.insert("a".to_string(), 1);
    cache.insert("a".to_string(), 2);
    assert_eq!(cache.len(), 1);
    assert_eq!(cache.get(&"a".to_string()), Some(&2));
    cache.remove(&"a".to_string());
    assert!(cache.is_empty());
    cache.insert("b".to_string(), 3);
    cache.clear();
    assert_eq!(cache.len(), 0);
}

#[test]
fn lru_cache_of_zero_capacity_stores_nothing() {
    let mut cache: LruCache<u64, u64> = LruCache::new(0);
    cache.insert(7, 7);
    assert!(cache.is_empty());
    assert_eq!(cache.get(&7), None);
}

#[test]
fn pool_release_then_acquire_returns_item() {
    let mut pool: Pool<Vec<u8>> = Pool::new(2);
    assert_eq!(pool.len(), 2);
    assert_eq!(pool.available(), 2);
    pool.release(vec![1, 2, 3]);
    assert_eq!(pool.acquire(), vec![1, 2, 3]);
    assert_eq!(pool.acquire(), Vec::<u8>::new());
    assert_eq!(pool.acquire(), Vec::<u8>::new());
    assert!(pool.is_empty());
    assert_eq!(pool.acquire(), Vec::<u8>::new());
    assert!(pool.is_empty());
}

#[test]
fn arena_bumps_and_resets() {
    let mut arena = FrameArena::new(16);
    assert_eq!(arena.remaining(), 16);
    {
        let a = arena.allocate(10).unwrap();
        assert_eq!(a.len(), 10);
        a[0] = 5;
    }
    assert_eq!(arena.used(), 10);
    assert!(arena.allocate(7).is_none());
    assert_eq!(arena.used(), 10);
    assert_eq!(arena.allocate(6).unwrap().len(), 6);
    assert_eq!(arena.remaining(), 0);
    arena.reset();
    assert_eq!(arena.used(), 0);
    assert_eq!(arena.remaining(), 16);
}

#[test]
fn energy_impact_thresholds() {
    let mut d = EnergyDiagnostics::new();
    assert_eq!(d.analyze_impact(), EnergyImpact::Low);
    d.thread_wakeups = 3;
    assert_eq!(d.analyze_impact(), EnergyImpact::Medium);
    d.gpu_uploads = 4;
    assert_eq!(d.analyze_impact(), EnergyImpact::High);
    d.reset();
    assert_eq!(d.analyze_impact(), EnergyImpact::Low);
    d.allocations = 101;
    assert_eq!(d.analyze_impact(), EnergyImpact::High);
    assert_eq!(EnergyImpact::default(), EnergyImpact::Low);
}

#[test]
fn aof_flags_follow_master_switch() {
    let full = AofConfig::full_inspection();
    assert_eq!(
        full.flags(),
        AofFlags { aof: true, trace: true, snapshot: true, metrics: true, export: true }
    );
    let off = AofConfig { enabled: false, ..full };
    assert_eq!(
        off.flags(),
        AofFlags { aof: false, trace: false, snapshot: false, metrics: false, export: false }
    );
    let partial = AofConfig { enable_tracing: false, ..full };
    assert!(!partial.flags().trace);
    assert!(partial.flags().metrics);
}
