use hagent::sdh::{column_of, SDH};

fn fnv(seed: u64, bytes: &[u8]) -> u64 {
    let mut h = seed;
    for b in bytes {
        h ^= *b as u64;
        h = h.wrapping_mul(0x100000001b3);
    }
    h
}

#[test]
fn column_is_seeded_hash_of_key_bytes() {
    for (row, key, w) in [(0usize, 0u64, 7usize), (1, 0x200000, 1024), (3, u64::MAX, 13), (2, 0xdead_beef_0000, 1)] {
        let seed = 0xcbf29ce484222325u64 ^ (row as u64);
        let expected = (fnv(seed, &key.to_le_bytes()) % (w as u64)) as usize;
        assert_eq!(column_of(row, key, w), expected);
    }
    // one value worked out by hand: row 0, key 0, eight zero bytes
    let mut h = 0xcbf29ce484222325u64;
    for _ in 0..8 {
        h = h.wrapping_mul(0x100000001b3);
    }
    assert_eq!(column_of(0, 0, 1000), (h % 1000) as usize);
}

#[test]
fn fresh_sketch_has_counted_nothing() {
    let sdh = SDH::new(64, 4, 8).unwrap();
    assert_eq!(sdh.estimate(0x200000), 0);
    assert_eq!(sdh.estimate(u64::MAX), 0);
    assert!(sdh.dump_topk().is_empty());
}

#[test]
fn first_observation_is_hot_later_ones_are_not() {
    let mut sdh = SDH::new(64, 4, 8).unwrap();
    assert_eq!(sdh.add(0x200000), (1, true, None));
    assert_eq!(sdh.add(0x200000), (2, false, None));
    assert_eq!(sdh.add(0x200000), (3, false, None));
    assert_eq!(sdh.estimate(0x200000), 3);
    assert_eq!(sdh.dump_topk(), vec![(0x200000, 3)]);
}

#[test]
fn repeated_key_counts_at_least_its_observations() {
    let mut sdh = SDH::new(32, 3, 4).unwrap();
    for other in 1..40u64 {
        sdh.add(other << 21);
    }
    let key = 0x7000_0000u64;
    let mut last = 0;
    for m in 1..=50u64 {
        let (count, _, _) = sdh.add(key);
        assert!(count >= m);
        assert!(count >= last);
        last = count;
    }
    if let Some(entry) = sdh.dump_topk().iter().find(|e| e.0 == key) {
        assert_eq!(entry.1, last);
        assert!(entry.1 >= 50);
    }
}

#[test]
fn repeated_key_from_fresh_sketch_is_kept_with_its_count() {
    let mut sdh = SDH::new(128, 4, 1).unwrap();
    for _ in 0..25 {
        sdh.add(0x4000_0000);
    }
    assert_eq!(sdh.dump_topk(), vec![(0x4000_0000, 25)]);
}

#[test]
fn as_many_distinct_keys_as_room_evict_nothing() {
    let n = 16usize;
    let mut sdh = SDH::new(256, 4, n).unwrap();
    for i in 0..n as u64 {
        let (_, hot, evicted) = sdh.add((i + 1) << 21);
        assert!(hot);
        assert_eq!(evicted, None);
    }
    assert_eq!(sdh.dump_topk().len(), n);
}

#[test]
fn heap_never_holds_more_than_k_distinct_keys() {
    let k = 5usize;
    let mut sdh = SDH::new(64, 2, k).unwrap();
    let mut state: u64 = 0x9e3779b97f4a7c15;
    for _ in 0..3000 {
        state ^= state << 13;
        state ^= state >> 7;
        state ^= state << 17;
        sdh.add((state % 40) << 21);
        let top = sdh.dump_topk();
        assert!(top.len() <= k);
        let mut keys: Vec<u64> = top.iter().map(|e| e.0).collect();
        keys.sort();
        keys.dedup();
        assert_eq!(keys.len(), top.len());
        assert!((1..top.len()).all(|i| top[(i - 1) / 2].1 <= top[i].1));
    }
}

#[test]
fn new_key_that_beats_the_root_evicts_it() {
    let k = 4usize;
    let mut sdh = SDH::new(4096, 4, k).unwrap();
    let keys = [0x20_0000u64, 0x40_0000, 0x60_0000, 0x80_0000];
    for _ in 0..10 {
        for key in keys {
            sdh.add(key);
        }
    }
    let top = sdh.dump_topk();
    assert_eq!(top.len(), 4);
    assert!(top.iter().all(|e| e.1 == 10));
    let lightest = top[0].0;
    let newcomer = 0xa0_0000u64;
    let mut promotions = 0;
    let mut demotions = Vec::new();
    for m in 1..=20u64 {
        let (count, hot, evicted) = sdh.add(newcomer);
        assert_eq!(count, m);
        if hot {
            promotions += 1;
            assert_eq!(m, 11);
        }
        if let Some(key) = evicted {
            demotions.push(key);
        }
    }
    assert_eq!(promotions, 1);
    assert_eq!(demotions, vec![lightest]);
    let top = sdh.dump_topk();
    assert_eq!(top.len(), 4);
    assert!(top.contains(&(newcomer, 20)));
    assert!(!top.iter().any(|e| e.0 == lightest));
}

#[test]
fn new_key_that_only_ties_the_root_is_not_kept() {
    let mut sdh = SDH::new(4096, 4, 1).unwrap();
    assert_eq!(sdh.add(0x20_0000), (1, true, None));
    assert_eq!(sdh.add(0x40_0000), (1, false, None));
    assert_eq!(sdh.add(0x40_0000), (2, true, Some(0x20_0000)));
    assert_eq!(sdh.dump_topk(), vec![(0x40_0000, 2)]);
}

#[test]
fn sketch_that_keeps_nothing_reports_nothing_hot() {
    let mut sdh = SDH::new(16, 2, 0).unwrap();
    assert_eq!(sdh.add(0x20_0000), (1, false, None));
    assert_eq!(sdh.add(0x20_0000), (2, false, None));
    assert!(sdh.dump_topk().is_empty());
}

#[test]
fn sketch_without_rows_estimates_the_largest_count() {
    let mut sdh = SDH::new(16, 0, 2).unwrap();
    assert_eq!(sdh.estimate(1), u64::MAX);
    assert_eq!(sdh.add(1), (u64::MAX, true, None));
}

#[test]
fn colliding_keys_share_a_counter() {
    // one column: every key owns the same counter in every row
    let mut sdh = SDH::new(1, 3, 4).unwrap();
    assert_eq!(sdh.add(1), (1, true, None));
    assert_eq!(sdh.add(2), (2, true, None));
    assert_eq!(sdh.add(1), (3, false, None));
    assert_eq!(sdh.estimate(99), 3);
}

#[test]
fn sketch_too_large_to_have_is_refused() {
    assert!(SDH::new(usize::MAX, 1, 1).is_err());
    assert!(SDH::new(16, usize::MAX, 1).is_err());
    assert!(SDH::new(16, 1, usize::MAX).is_err());
}

#[test]
fn sketch_that_needs_no_memory_is_made() {
    let mut sdh = SDH::new(usize::MAX, 0, 0).unwrap();
    assert_eq!(sdh.add(1), (u64::MAX, false, None));
}
