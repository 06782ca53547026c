use pvm_sim::pvm::cache_configs::{CacheConfig, ReplacementPolicy, WritePolicy};
use pvm_sim::pvm::caches::{Cache, CacheAccessResult, CacheHierarchy, L1Cache, DEFAULT_LINE_SIZE};

fn in_cache(cache: &L1Cache, addr: u32) -> bool {
    let base = cache.get_line_addr(addr);
    cache.data.iter().any(|(a, _)| *a == base)
}

#[test]
fn test_cache_creation() {
    let cache = L1Cache::new(1024);
    assert_eq!(cache.size, 1024);
    assert_eq!(cache.line_size, DEFAULT_LINE_SIZE);
    assert_eq!(cache.lines_count, 16);
    assert_eq!(cache.data.len(), 0);
    assert_eq!(cache.lru_counter, 0);
}

#[test]
fn test_cache_line_addressing() {
    let cache = L1Cache::new(1024);
    assert_eq!(cache.get_line_addr(0x100), 0x100);
    assert_eq!(cache.get_line_addr(0x12F), 0x100);
    assert_eq!(cache.get_line_addr(0x13F), 0x100);
    assert_eq!(cache.get_line_addr(0x140), 0x140);
    assert_eq!(cache.get_offset(0x100), 0);
    assert_eq!(cache.get_offset(0x12F), 0x2F);
    assert_eq!(cache.get_offset(0x13F), 0x3F);
    assert_eq!(cache.get_offset(0x140), 0);
}

#[test]
fn test_cache_read_write_byte_hit_miss() {
    let mut cache = L1Cache::new(1024);
    assert_eq!(cache.read_byte(0x100), None);
    assert!(!in_cache(&cache, 0x100));
    let was_hit = cache.write_byte(0x100, 42);
    assert!(!was_hit, "Écriture devrait être un miss la première fois");
    assert!(!in_cache(&cache, 0x100));
    let base = cache.get_line_addr(0x100);
    let mut line_data = [0u8; DEFAULT_LINE_SIZE];
    line_data[cache.get_offset(0x100)] = 42;
    cache.fill_line(base, line_data);
    let was_hit2 = cache.write_byte(0x100, 43);
    assert!(was_hit2, "Après un fill_line, écrire doit être un HIT");
    assert!(in_cache(&cache, 0x100));
    let read_val = cache.read_byte(0x100);
    assert_eq!(read_val, Some(43));
}

#[test]
fn test_cache_lru_eviction() {
    let mut cache = L1Cache::new(128);
    assert_eq!(cache.lines_count, 2);
    let mut line1 = [0u8; DEFAULT_LINE_SIZE];
    line1[0] = 1;
    cache.fill_line(0x0000, line1);
    let mut line2 = [0u8; DEFAULT_LINE_SIZE];
    line2[0] = 2;
    cache.fill_line(0x0040, line2);
    assert!(in_cache(&cache, 0x0000));
    assert!(in_cache(&cache, 0x0040));
    let _ = cache.read_byte(0x0000);
    let mut line3 = [0u8; DEFAULT_LINE_SIZE];
    line3[0] = 3;
    cache.fill_line(0x0080, line3);
    assert!(in_cache(&cache, 0x0000));
    assert!(!in_cache(&cache, 0x0040));
    assert!(in_cache(&cache, 0x0080));
}

#[test]
fn test_cache_clear() {
    let mut cache = L1Cache::new(1024);
    let mut data1 = [0u8; DEFAULT_LINE_SIZE];
    data1[0] = 42;
    cache.fill_line(0x0100, data1);
    let mut data2 = [0u8; DEFAULT_LINE_SIZE];
    data2[0] = 43;
    cache.fill_line(0x0200, data2);
    assert!(in_cache(&cache, 0x0100));
    assert!(in_cache(&cache, 0x0200));
    cache.clear();
    assert_eq!(cache.data.len(), 0);
    assert_eq!(cache.lru_counter, 0);
    assert!(!in_cache(&cache, 0x0100));
    assert!(!in_cache(&cache, 0x0200));
}

#[test]
fn test_cache_fill_line_and_write() {
    let mut cache = L1Cache::new(1024);
    let base = cache.get_line_addr(0x100);
    let mut line_data = [0u8; DEFAULT_LINE_SIZE];
    line_data[cache.get_offset(0x100)] = 42;
    cache.fill_line(base, line_data);
    let val = cache.read_byte(0x100);
    assert_eq!(val, Some(42));
    let was_hit = cache.write_byte(0x100, 43);
    assert!(was_hit);
    let val2 = cache.read_byte(0x100);
    assert_eq!(val2, Some(43));
    let was_hit2 = cache.write_byte(0x101, 44);
    assert!(was_hit2);
    let val3 = cache.read_byte(0x101);
    assert_eq!(val3, Some(44));
}

fn create_test_cache() -> Cache {
    let l2_config = CacheConfig {
        size: 1024,
        lines_size: 64,
        associativity: 8,
        write_policy: WritePolicy::WriteBack,
        replacement_policy: ReplacementPolicy::LRU,
    };
    let l1_config = CacheConfig {
        size: 256,
        lines_size: 64,
        associativity: 4,
        write_policy: WritePolicy::WriteThrough,
        replacement_policy: ReplacementPolicy::LRU,
    };
    let l2_cache = Box::new(Cache::new(l2_config, None));
    Cache::new(l1_config, Some(l2_cache))
}

#[test]
fn test_cache_read_write() {
    let mut cache = create_test_cache();
    cache.write(0x1000, 42).unwrap();
    assert_eq!(cache.read(0x1000).unwrap(), 42);
    for i in 0..10 {
        cache.write(0x2000 + i * 8, i as u8).unwrap();
    }
    for i in 0..10 {
        assert_eq!(cache.read(0x2000 + i * 8).unwrap(), i as u64);
    }
}

#[test]
fn test_cache_replacement() {
    let mut cache = create_test_cache();
    for i in 0..8 {
        cache.write(i * 1024, i as u8).unwrap();
    }
    for i in 0..8 {
        assert_eq!(cache.read(i * 1024).unwrap(), i as u64);
    }
    for i in 8..16 {
        cache.write(i * 1024, i as u8).unwrap();
    }
}

#[test]
fn test_cache_invalidation() {
    let mut cache = create_test_cache();
    cache.write(0x1000, 42).unwrap();
    cache.invalidate_address(0x1000).unwrap();
    assert_eq!(cache.read(0x1000).unwrap(), 42);
}

fn create_test_hierarchy() -> CacheHierarchy {
    let l1_data_config = CacheConfig {
        size: 4 * 1024,
        lines_size: 64,
        associativity: 4,
        write_policy: WritePolicy::WriteThrough,
        replacement_policy: ReplacementPolicy::LRU,
    };
    let l1_inst_config = l1_data_config.clone();
    let l2_config = CacheConfig {
        size: 32 * 1024,
        lines_size: 64,
        associativity: 8,
        write_policy: WritePolicy::WriteBack,
        replacement_policy: ReplacementPolicy::LRU,
    };
    CacheHierarchy::new(l1_data_config, l1_inst_config, l2_config)
}

#[test]
fn test_cache_hierarchy_l1_hit() {
    let mut hierarchy = create_test_hierarchy();
    let _result1 = hierarchy.access_data(0x1000, true, Some(42)).unwrap();
    let result2 = hierarchy.access_data(0x1000, false, None).unwrap();
    match result2 {
        CacheAccessResult::Hit(data) => assert_eq!(data, 42),
        CacheAccessResult::L2Hit(_) => {}
        _ => panic!("Expected hit or L2 hit, got {:?}", result2),
    }
}

#[test]
fn test_cache_hierarchy_l2_functionality() {
    let mut hierarchy = create_test_hierarchy();
    for i in 0..10 {
        let addr = 0x1000 + (i * 64);
        let _ = hierarchy.access_data(addr, true, Some(i as u64));
    }
    for i in 0..10 {
        let addr = 0x1000 + (i * 64);
        let result = hierarchy.access_data(addr, false, None).unwrap();
        match result {
            CacheAccessResult::Hit(data) | CacheAccessResult::L2Hit(data) => {
                assert_eq!(data, i as u64);
            }
            CacheAccessResult::Miss | CacheAccessResult::MSHRPending => {}
        }
    }
}

#[test]
fn test_cache_hierarchy_mshr() {
    let mut hierarchy = create_test_hierarchy();
    for i in 0..3 {
        let addr = 0x10000 + (i * 4096);
        let result = hierarchy.access_data(addr, false, None);
        match result {
            Ok(CacheAccessResult::Miss)
            | Ok(CacheAccessResult::MSHRPending)
            | Ok(CacheAccessResult::Hit(_))
            | Ok(CacheAccessResult::L2Hit(_)) => {}
            Err(_) => {
                break;
            }
        }
        let _ = hierarchy.update_mshr();
    }
    let _completed = hierarchy.update_mshr();
}

#[test]
fn test_cache_hierarchy_write_buffer() {
    let mut hierarchy = create_test_hierarchy();
    for i in 0..5 {
        let addr = 0x2000 + i;
        let _ = hierarchy.access_data(addr, true, Some(i as u64));
    }
    hierarchy.flush_write_buffer().unwrap();
}

#[test]
fn cache_read_after_write_through_levels() {
    let mut cache = create_test_cache();
    cache.write(0x3000, 7).unwrap();
    cache.write(0x3001, 8).unwrap();
    assert_eq!(cache.read(0x3000).unwrap(), 7);
    assert_eq!(cache.read(0x3001).unwrap(), 8);
    let stats = cache.get_statistics();
    assert_eq!(stats.hits, 2);
}

#[test]
fn cache_read_of_unwritten_address_fails_in_last_level() {
    let l1_config = CacheConfig {
        size: 256,
        lines_size: 64,
        associativity: 4,
        write_policy: WritePolicy::WriteThrough,
        replacement_policy: ReplacementPolicy::LRU,
    };
    let mut cache = Cache::new(l1_config, None);
    assert!(cache.read(0x40).is_err());
    assert_eq!(cache.get_statistics().misses, 1);
}

#[test]
fn hierarchy_byte_access_reads_back_a_written_word_byte() {
    let mut hierarchy = create_test_hierarchy();
    let w = hierarchy.access_byte(0x500, true, Some(0x5A)).unwrap();
    assert_eq!(w, CacheAccessResult::Miss);
    let r = hierarchy.access_byte(0x500, false, None).unwrap();
    assert_eq!(r, CacheAccessResult::Hit(0x5A));
    assert!(hierarchy.access_byte(0x500, true, None).is_err());
}

#[test]
fn l1_cache_lru_victim_is_least_recent() {
    let mut cache = L1Cache::new(128);
    cache.fill_line(0x0, [1u8; DEFAULT_LINE_SIZE]);
    cache.fill_line(0x40, [2u8; DEFAULT_LINE_SIZE]);
    cache.fill_line(0x80, [3u8; DEFAULT_LINE_SIZE]);
    assert!(!in_cache(&cache, 0x0));
    assert_eq!(cache.read_byte(0x41), Some(2));
    assert_eq!(cache.read_byte(0x81), Some(3));
}

#[test]
fn cache_random_replacement_evicts_within_the_set() {
    let l2_config = CacheConfig {
        size: 1024,
        lines_size: 64,
        associativity: 8,
        write_policy: WritePolicy::WriteBack,
        replacement_policy: ReplacementPolicy::LRU,
    };
    let l1_config = CacheConfig {
        size: 256,
        lines_size: 64,
        associativity: 4,
        write_policy: WritePolicy::WriteThrough,
        replacement_policy: ReplacementPolicy::Random,
    };
    let mut cache = Cache::new(l1_config, Some(Box::new(Cache::new(l2_config, None))));
    // the one set of four ways fills up, then each new line evicts a way drawn at random
    for i in 0..12u32 {
        cache.write(i * 1024, i as u8).unwrap();
    }
    assert!(cache.statistics.evictions > 0);
    assert_eq!(cache.read(11 * 1024).unwrap(), 11);
}

#[test]
fn hierarchy_byte_written_reads_back() {
    let mut h = create_test_hierarchy();
    h.access_byte(0x101, true, Some(42)).unwrap();
    match h.access_byte(0x101, false, None).unwrap() {
        CacheAccessResult::Hit(b) | CacheAccessResult::L2Hit(b) => assert_eq!(b, 42),
        other => panic!("expected a hit, got {:?}", other),
    }
    h.access_byte(0x102, true, Some(7)).unwrap();
    match h.access_byte(0x101, false, None).unwrap() {
        CacheAccessResult::Hit(b) | CacheAccessResult::L2Hit(b) => assert_eq!(b, 42),
        other => panic!("expected a hit, got {:?}", other),
    }
}
