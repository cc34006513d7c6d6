use tiny_adnl::overlay_node::lru::LruSet;
use tiny_adnl::overlay_node::sample::sample_indices;

fn id(n: u8) -> [u8; 32] {
    [n; 32]
}

fn items(set: &LruSet) -> Vec<u8> {
    (0..set.len()).map(|i| set.get(i)[0]).collect()
}

#[test]
fn the_id_unused_for_longest_goes_first() {
    let mut set = LruSet::new(3);
    assert!(!set.touch(id(1)));
    assert!(!set.touch(id(2)));
    assert!(!set.touch(id(3)));
    assert_eq!(items(&set), vec![1, 2, 3]);
    assert!(set.touch(id(1)));
    assert_eq!(items(&set), vec![2, 3, 1]);
    assert!(!set.touch(id(4)));
    assert_eq!(items(&set), vec![3, 1, 4]);
    assert!(!set.contains(&id(2)));
    assert!(set.contains(&id(3)));
    assert!(!set.touch(id(2)));
    assert_eq!(items(&set), vec![1, 4, 2]);
    assert!(set.remove(&id(4)));
    assert!(!set.remove(&id(4)));
    assert_eq!(items(&set), vec![1, 2]);
}

#[test]
fn a_set_without_room_holds_nothing() {
    let mut set = LruSet::new(0);
    assert!(!set.touch(id(1)));
    assert!(!set.touch(id(1)));
    assert_eq!(set.len(), 0);
    let mut one = LruSet::new(1);
    assert!(!one.touch(id(1)));
    assert!(one.touch(id(1)));
    assert!(!one.touch(id(2)));
    assert_eq!(items(&one), vec![2]);
}

#[test]
fn what_was_used_lately_is_held() {
    let capacity = 4;
    let used: Vec<u8> = vec![1, 2, 3, 1, 4, 5, 2, 2, 6, 1, 7, 3, 3, 8, 9, 1];
    let mut set = LruSet::new(capacity);
    for n in 0..used.len() {
        set.touch(id(used[n]));
        for j in 0..=n {
            if n + 1 - j <= capacity {
                assert!(set.contains(&id(used[j])), "after {} uses, use {}", n + 1, j);
            }
        }
        assert!(set.len() <= capacity);
    }
}

#[test]
fn samples_are_distinct_and_in_range() {
    for (n, count) in [(0usize, 3usize), (5, 0), (5, 3), (5, 5), (5, 9), (100, 10)] {
        for _ in 0..20 {
            let picked = sample_indices(n, count);
            assert_eq!(picked.len(), n.min(count));
            let mut sorted = picked.clone();
            sorted.sort_unstable();
            sorted.dedup();
            assert_eq!(sorted.len(), picked.len());
            assert!(picked.iter().all(|i| *i < n));
        }
    }
    let all = sample_indices(6, 6);
    let mut sorted = all.clone();
    sorted.sort_unstable();
    assert_eq!(sorted, vec![0, 1, 2, 3, 4, 5]);
}

#[test]
fn samples_vary() {
    let mut seen = std::collections::HashSet::new();
    for _ in 0..200 {
        seen.insert(sample_indices(10, 1)[0]);
    }
    assert!(seen.len() > 1);
}
