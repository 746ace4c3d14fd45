use gateway_core::sticky::{
    shard_index, SessionKey, StickyMap, StickySessionConfig, StickySessions, SHARDS,
};

fn account_of(map: &StickyMap, session: &str, now: u64, ttl: u64) -> Option<String> {
    map.lookup(session, now, ttl).map(|b| b.account_id.clone())
}

#[test]
fn default_settings() {
    let c = StickySessionConfig::default();
    assert!(c.enabled);
    assert_eq!(c.sticky_ttl_secs, 600);
    assert!(matches!(&c.session_key, SessionKey::Header(name) if name == "x-session-id"));
    assert!(c.fallback_on_unhealthy);
    assert_eq!(c.max_bindings, 1024);
    let d = c.duplicate();
    assert_eq!(format!("{:?}", d), format!("{:?}", c));
}

#[test]
fn bind_then_lookup() {
    let mut m = StickyMap::new(4);
    assert_eq!(m.len(), 0);
    m.bind("s1", "acc-a", 100);
    let b = m.lookup("s1", 100, 600).unwrap();
    assert_eq!(b.account_id, "acc-a");
    assert_eq!(b.bound_at, 100);
    assert_eq!(b.last_hit_at, 100);
    assert!(m.lookup("s2", 100, 600).is_none());
    assert_eq!(m.len(), 1);
}

#[test]
fn one_binding_per_session() {
    let mut m = StickyMap::new(4);
    m.bind("s1", "acc-a", 100);
    m.bind("s1", "acc-b", 200);
    assert_eq!(m.len(), 1);
    let b = m.lookup("s1", 200, 600).unwrap();
    assert_eq!(b.account_id, "acc-b");
    assert_eq!(b.bound_at, 200);
}

#[test]
fn binding_expires_after_the_ttl() {
    let mut m = StickyMap::new(4);
    m.bind("s1", "acc-a", 100);
    assert!(m.lookup("s1", 700, 600).is_some());
    assert!(m.lookup("s1", 701, 600).is_none());
    assert!(m.lookup("s1", 100, 0).is_some());
    assert!(m.lookup("s1", 101, 0).is_none());
    assert!(m.lookup("s1", u64::MAX, u64::MAX).is_some());
}

#[test]
fn touch_renews_a_binding() {
    let mut m = StickyMap::new(4);
    m.bind("s1", "acc-a", 100);
    assert!(m.touch("s1", 650));
    let b = m.lookup("s1", 1250, 600).unwrap();
    assert_eq!(b.bound_at, 100);
    assert_eq!(b.last_hit_at, 650);
    assert!(m.lookup("s1", 1251, 600).is_none());
    assert!(!m.touch("s2", 650));
    assert_eq!(m.len(), 1);
}

#[test]
fn full_map_gives_up_the_least_recently_hit() {
    let mut m = StickyMap::new(3);
    m.bind("s1", "a", 10);
    m.bind("s2", "b", 20);
    m.bind("s3", "c", 30);
    m.touch("s1", 40);
    m.bind("s4", "d", 50);
    assert_eq!(m.len(), 3);
    assert_eq!(account_of(&m, "s2", 50, 600), None);
    assert_eq!(account_of(&m, "s1", 50, 600).as_deref(), Some("a"));
    assert_eq!(account_of(&m, "s3", 50, 600).as_deref(), Some("c"));
    assert_eq!(account_of(&m, "s4", 50, 600).as_deref(), Some("d"));
}

#[test]
fn equal_hits_give_up_the_first_bound() {
    let mut m = StickyMap::new(2);
    m.bind("s1", "a", 10);
    m.bind("s2", "b", 10);
    m.bind("s3", "c", 10);
    assert_eq!(account_of(&m, "s1", 10, 600), None);
    assert!(m.lookup("s2", 10, 600).is_some());
    assert!(m.lookup("s3", 10, 600).is_some());
}

#[test]
fn rebinding_a_known_session_evicts_nobody() {
    let mut m = StickyMap::new(2);
    m.bind("s1", "a", 10);
    m.bind("s2", "b", 20);
    m.bind("s1", "c", 30);
    assert_eq!(m.len(), 2);
    assert_eq!(account_of(&m, "s1", 30, 600).as_deref(), Some("c"));
    assert_eq!(account_of(&m, "s2", 30, 600).as_deref(), Some("b"));
}

#[test]
fn map_without_capacity_stays_empty() {
    let mut m = StickyMap::new(0);
    m.bind("s1", "a", 10);
    assert_eq!(m.len(), 0);
    assert!(m.lookup("s1", 10, 600).is_none());
}

#[test]
fn unbind_and_clear() {
    let mut m = StickyMap::new(4);
    m.bind("s1", "a", 10);
    m.bind("s2", "b", 10);
    assert!(m.unbind("s1"));
    assert!(!m.unbind("s1"));
    assert_eq!(m.len(), 1);
    m.clear_all();
    assert_eq!(m.len(), 0);
    assert!(m.lookup("s2", 10, 600).is_none());
}

#[test]
fn evict_expired_removes_only_the_expired() {
    let mut m = StickyMap::new(8);
    m.bind("old", "a", 100);
    m.bind("edge", "b", 400);
    m.bind("new", "c", 900);
    assert_eq!(m.evict_expired(1000, 600), 1);
    assert_eq!(m.len(), 2);
    assert!(m.lookup("old", 100, 600).is_none());
    assert_eq!(account_of(&m, "edge", 1000, 600).as_deref(), Some("b"));
    assert_eq!(account_of(&m, "new", 1000, 600).as_deref(), Some("c"));
    assert_eq!(m.evict_expired(1000, 600), 0);
}

#[test]
fn shard_index_is_the_hash_modulo_the_shards() {
    // FNV-1a of the empty text is the offset basis
    assert_eq!(shard_index(""), (0xcbf2_9ce4_8422_2325u64 % 16) as usize);
    // FNV-1a 64 of "a" is 0xaf63dc4c8601ec8c
    assert_eq!(shard_index("a"), (0xaf63_dc4c_8601_ec8cu64 % 16) as usize);
    // FNV-1a 64 of "foobar" is 0x85944171f73967e8
    assert_eq!(shard_index("foobar"), (0x8594_4171_f739_67e8u64 % 16) as usize);
    for s in ["", "a", "session-1", "✅"] {
        assert!(shard_index(s) < SHARDS);
        assert_eq!(shard_index(s), shard_index(s));
    }
}

#[test]
fn sessions_spread_over_all_shards() {
    let mut seen = [false; 16];
    for i in 0..400 {
        seen[shard_index(&format!("session-{}", i))] = true;
    }
    assert!(seen.iter().all(|s| *s));
}

#[test]
fn sharded_sessions_bind_and_lookup() {
    let mut s = StickySessions::new(64);
    assert_eq!(s.capacity(), 64);
    for i in 0..20 {
        s.bind(&format!("s{}", i), &format!("acc{}", i % 3), 100 + i);
    }
    assert_eq!(s.len(), 20);
    for i in 0..20 {
        let b = s.lookup(&format!("s{}", i), 200, 600).unwrap();
        assert_eq!(b.account_id, format!("acc{}", i % 3));
    }
    assert!(s.touch("s3", 500));
    assert!(!s.touch("nobody", 500));
    assert!(s.unbind("s4"));
    assert!(!s.unbind("s4"));
    assert_eq!(s.len(), 19);
    assert_eq!(s.evict_expired(800, 600), 18);
    assert_eq!(s.len(), 1);
    assert!(s.lookup("s3", 800, 600).is_some());
    s.clear_all();
    assert_eq!(s.len(), 0);
}

#[test]
fn sharded_sessions_never_exceed_their_capacity() {
    for max in [0u32, 1, 5, 16, 17, 40] {
        let mut s = StickySessions::new(max);
        for i in 0..500 {
            s.bind(&format!("session-{}", i), "acc", i);
            assert!(s.len() <= max as usize);
        }
    }
}

#[test]
fn shard_capacities_add_up() {
    // with 17 bindings allowed, the first shard holds two and the others one
    let mut s = StickySessions::new(17);
    let mut bound = 0;
    let mut i = 0;
    while bound < 3 && i < 10_000 {
        let id = format!("k{}", i);
        if shard_index(&id) == 0 {
            s.bind(&id, "acc", 10 + bound);
            bound += 1;
        }
        i += 1;
    }
    assert_eq!(bound, 3);
    assert_eq!(s.len(), 2);
}

#[test]
fn smaller_capacity_keeps_the_most_recent_hits() {
    let mut m = StickyMap::new(4);
    m.bind("s1", "acc-a", 100);
    m.bind("s2", "acc-b", 101);
    m.bind("s3", "acc-c", 102);
    m.bind("s4", "acc-d", 103);
    assert!(m.touch("s1", 110));
    m.resize(2);
    assert_eq!(m.len(), 2);
    assert_eq!(account_of(&m, "s1", 110, 600), Some("acc-a".to_string()));
    assert_eq!(account_of(&m, "s4", 110, 600), Some("acc-d".to_string()));
    assert_eq!(account_of(&m, "s2", 110, 600), None);
    assert_eq!(account_of(&m, "s3", 110, 600), None);
    // what stayed is as it was
    let b = m.lookup("s1", 110, 600).unwrap();
    assert_eq!((b.bound_at, b.last_hit_at), (100, 110));
    // the new capacity is in force
    m.bind("s5", "acc-e", 120);
    assert_eq!(m.len(), 2);
    assert_eq!(account_of(&m, "s4", 120, 600), None);
    m.resize(0);
    assert_eq!(m.len(), 0);
}

#[test]
fn larger_capacity_keeps_every_binding() {
    let mut m = StickyMap::new(2);
    m.bind("s1", "acc-a", 100);
    m.bind("s2", "acc-b", 101);
    m.resize(2);
    assert_eq!(m.len(), 2);
    m.resize(5);
    assert_eq!(m.len(), 2);
    assert_eq!(account_of(&m, "s1", 101, 600), Some("acc-a".to_string()));
    assert_eq!(account_of(&m, "s2", 101, 600), Some("acc-b".to_string()));
    m.bind("s3", "acc-c", 102);
    assert_eq!(m.len(), 3);
}

#[test]
fn sessions_keep_their_bindings_over_a_change_of_capacity() {
    let mut s = StickySessions::new(64);
    let names: Vec<String> = (0..40).map(|i| format!("session-{}", i)).collect();
    for (i, name) in names.iter().enumerate() {
        s.bind(name, "acc", 100 + i as u64);
    }
    let held = s.len();
    assert!(held > 0 && held <= 40);
    let bound: Vec<bool> = names.iter().map(|n| s.lookup(n, 200, 600).is_some()).collect();
    s.resize(4096);
    assert_eq!(s.capacity(), 4096);
    assert_eq!(s.len(), held);
    for (name, was) in names.iter().zip(bound.iter()) {
        assert_eq!(s.lookup(name, 200, 600).is_some(), *was);
    }
    // one binding for each shard at most, the most recent of the shard
    s.resize(16);
    assert!(s.len() <= 16);
    let mut latest = vec![None; SHARDS];
    for (i, (name, was)) in names.iter().zip(bound.iter()).enumerate() {
        if *was {
            latest[shard_index(name)] = Some(i);
        }
    }
    for (i, name) in names.iter().enumerate() {
        let stays = latest[shard_index(name)] == Some(i);
        assert_eq!(s.lookup(name, 200, 600).is_some(), stays, "{}", name);
    }
    s.resize(0);
    assert_eq!(s.len(), 0);
}
