use tiny_adnl::utils::queries_cache::{gen_query_id, QueriesCache};

#[test]
fn queries_enter_once_and_leave_once() {
    let mut cache = QueriesCache::new();
    assert_eq!(cache.len(), 0);
    assert!(cache.add_query([1; 32], 10));
    assert!(cache.add_query([2; 32], 20));
    assert!(!cache.add_query([1; 32], 30));
    assert_eq!(cache.len(), 2);
    assert!(cache.remove_query(&[1; 32]));
    assert!(!cache.remove_query(&[1; 32]));
    assert_eq!(cache.len(), 1);
    assert!(cache.add_query([1; 32], 30));
    assert_eq!(cache.len(), 2);
}

#[test]
fn queries_time_out_in_order() {
    let mut cache = QueriesCache::new();
    for (id, deadline) in [(1u8, 10u64), (2, 5), (3, 10), (4, 11), (5, 0)] {
        assert!(cache.add_query([id; 32], deadline));
    }
    assert_eq!(cache.expire(0), Vec::<[u8; 32]>::new());
    assert_eq!(cache.len(), 5);
    assert_eq!(cache.expire(10), vec![[2u8; 32], [5u8; 32]]);
    assert_eq!(cache.len(), 3);
    assert_eq!(cache.expire(11), vec![[1u8; 32], [3u8; 32]]);
    assert!(cache.remove_query(&[4; 32]));
    assert!(!cache.remove_query(&[3; 32]));
    assert_eq!(cache.expire(u64::MAX), Vec::<[u8; 32]>::new());
}

#[test]
fn query_ids_differ() {
    let ids: Vec<[u8; 32]> = (0..50).map(|_| gen_query_id()).collect();
    let mut cache = QueriesCache::new();
    for id in &ids {
        assert!(cache.add_query(*id, 1));
    }
    assert_eq!(cache.len(), 50);
}
