use edgeserve::cache::{CacheConfig, CacheTier, ReadStep};
use edgeserve::connection_pool::{aggregate_stats, PoolStatus, TcpConnectionManager};

fn config(shared: bool, disk: bool) -> CacheConfig {
    CacheConfig {
        memory_capacity: 100,
        redis_url: if shared { Some("redis://localhost".to_string()) } else { None },
        disk_path: if disk { Some("/tmp/cache".to_string()) } else { None },
        ttl_seconds: 60,
    }
}

#[test]
fn read_path_walks_down_and_fills_up() {
    let c = config(true, true);
    assert_eq!(c.first_tier(), CacheTier::Memory);
    assert!(matches!(c.after_lookup(CacheTier::Memory, None), ReadStep::Ask(CacheTier::Shared)));
    assert!(matches!(c.after_lookup(CacheTier::Shared, None), ReadStep::Ask(CacheTier::Disk)));
    assert!(matches!(c.after_lookup(CacheTier::Disk, None), ReadStep::Miss));
    match c.after_lookup(CacheTier::Disk, Some(vec![1, 2])) {
        ReadStep::Fill { value, tiers } => {
            assert_eq!(value, vec![1, 2]);
            assert_eq!(tiers, vec![CacheTier::Memory, CacheTier::Shared]);
        }
        _ => panic!("expected a fill"),
    }
    match c.after_lookup(CacheTier::Memory, Some(vec![3])) {
        ReadStep::Fill { tiers, .. } => assert!(tiers.is_empty()),
        _ => panic!("expected a fill"),
    }
    let d = config(false, true);
    assert!(matches!(d.after_lookup(CacheTier::Memory, None), ReadStep::Ask(CacheTier::Disk)));
    assert_eq!(d.write_tiers(), vec![CacheTier::Memory, CacheTier::Disk]);
    assert!(matches!(config(false, false).after_lookup(CacheTier::Memory, None), ReadStep::Miss));
}

#[test]
fn pool_totals() {
    let s = aggregate_stats(&vec![
        PoolStatus { size: 3, available: 1, waiting: 0 },
        PoolStatus { size: 5, available: 0, waiting: 2 },
    ]);
    assert_eq!((s.total_pools, s.total_size, s.total_available, s.total_waiting), (2, 8, 1, 2));
    let m = TcpConnectionManager { host: "db".to_string(), port: 5432 };
    assert_eq!(m.address(), "db:5432");
}
