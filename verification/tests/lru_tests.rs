use gossip_engine::lru_cache::{DoublyLinkedList, LRUCache};

/// Reads the cached keys in recency order by evicting from the tail.
fn drain(mut cache: LRUCache, len: usize) -> Vec<u64> {
    let mut out = vec![0u64; len];
    for slot in (0..len).rev() {
        let tail = cache.linked_list.tail.expect("cache still has entries");
        out[slot] = cache.linked_list.nodes[tail].val;
        cache.remove_last_used_val();
    }
    assert!(cache.linked_list.tail.is_none());
    out
}

#[test]
fn empty_list_has_no_ends() {
    let list = DoublyLinkedList::new();
    assert!(list.head.is_none());
    assert!(list.tail.is_none());
    assert!(list.nodes.is_empty());
}

#[test]
fn add_val_keeps_recency_order() {
    let mut cache = LRUCache::new(4);
    cache.add_val(10);
    cache.add_val(20);
    cache.add_val(30);
    assert_eq!(drain(cache, 3), vec![30, 20, 10]);
}

#[test]
fn touching_moves_key_to_front() {
    let mut cache = LRUCache::new(4);
    cache.add_val(10);
    cache.add_val(20);
    cache.add_val(30);
    cache.add_val(10);
    assert_eq!(drain(cache, 3), vec![10, 30, 20]);
}

#[test]
fn insertion_beyond_capacity_evicts_least_recently_used() {
    let mut cache = LRUCache::new(3);
    cache.add_val(1);
    cache.add_val(2);
    cache.add_val(3);
    cache.add_val(4);
    assert_eq!(drain(cache, 3), vec![4, 3, 2]);
}

#[test]
fn touch_protects_a_key_from_eviction() {
    let mut cache = LRUCache::new(3);
    cache.add_val(1);
    cache.add_val(2);
    cache.add_val(3);
    cache.add_val(1);
    cache.add_val(4);
    assert_eq!(drain(cache, 3), vec![4, 1, 3]);
}

#[test]
fn remove_last_used_val_drops_the_tail() {
    let mut cache = LRUCache::new(3);
    cache.add_val(7);
    cache.add_val(8);
    cache.remove_last_used_val();
    assert_eq!(drain(cache, 1), vec![8]);
}

#[test]
fn remove_last_used_val_on_empty_cache_is_a_no_op() {
    let mut cache = LRUCache::new(3);
    cache.remove_last_used_val();
    assert!(cache.linked_list.head.is_none());
    cache.add_val(5);
    assert_eq!(drain(cache, 1), vec![5]);
}

#[test]
fn zero_capacity_cache_stays_empty() {
    let mut cache = LRUCache::new(0);
    cache.add_val(1);
    cache.add_val(2);
    assert!(cache.linked_list.head.is_none());
    assert!(cache.linked_list.tail.is_none());
}

#[test]
fn evicted_slots_are_reused() {
    let mut cache = LRUCache::new(2);
    for v in 0..10u64 {
        cache.add_val(v);
    }
    // The arena never grows past capacity + 1 slots.
    assert!(cache.linked_list.nodes.len() <= 3);
    assert_eq!(drain(cache, 2), vec![9, 8]);
}
