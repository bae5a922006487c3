use leptos_query::{Instant, QueryCache, QueryState, SetResult};

fn now() -> Instant {
    Instant(1_000)
}

fn state<K: leptos_query::QueryKey, V: Clone>(cache: &QueryCache<K, V>, key: &K) -> Option<QueryState<V>> {
    cache.get_query(key).map(|q| q.get_state().clone())
}

#[test]
fn prefetch_loads_data() {
    let mut cache: QueryCache<u32, String> = QueryCache::new();

    assert_eq!(0, cache.size());
    assert_eq!(None, state(&cache, &0));

    // Prefetch: create the query, run its fetch, store the result.
    cache.get_or_create_query(0);
    let first_load = cache.get_query_mut(&0).unwrap().begin_execution(false);
    assert_eq!(first_load, Some(true));
    assert!(matches!(state(&cache, &0), Some(QueryState::Loading)));
    cache.get_query_mut(&0).unwrap().finish_execution(true, Some(0u32.to_string()), now());

    assert_eq!(Some("0".to_string()), state(&cache, &0).and_then(|q| q.data().cloned()));
    assert!(matches!(state(&cache, &0), Some(QueryState::Loaded { .. })));
    assert_eq!(1, cache.size());

    cache.invalidate_query(&0);
    assert!(matches!(state(&cache, &0), Some(QueryState::Invalid { .. })));
}

#[test]
fn query_client_set_query_data() {
    let mut cache: QueryCache<u32, String> = QueryCache::new();

    assert_eq!(None, state(&cache, &0));
    assert_eq!(0, cache.size());

    let r = cache.update_query_data(0, |_| None, now());
    assert_eq!(r, SetResult::Nothing);

    assert_eq!(None, state(&cache, &0));
    assert_eq!(0, cache.size());

    let r = cache.update_query_data(0, |_| Some("0".to_string()), now());
    assert_eq!(r, SetResult::Inserted);

    assert_eq!(1, cache.size());
    assert_eq!(Some("0".to_string()), state(&cache, &0).and_then(|q| q.data().cloned()));
    assert!(matches!(state(&cache, &0), Some(QueryState::Loaded { .. })));

    let r = cache.update_query_data(0, |_| Some("1".to_string()), now());
    assert_eq!(r, SetResult::Updated);

    assert_eq!(Some("1".to_string()), state(&cache, &0).and_then(|q| q.data().cloned()));
}

#[test]
fn query_client_can_use_same_key_with_different_value_types() {
    // Each key type and value type has a cache of its own.
    let mut strings: QueryCache<u32, String> = QueryCache::new();
    let mut numbers: QueryCache<u32, u32> = QueryCache::new();

    strings.update_query_data(0, |_| Some("0".to_string()), now());
    numbers.update_query_data(0, |_| Some(1234), now());

    assert_eq!(2, strings.size() + numbers.size());
}

#[test]
fn query_client_can_invalidate_while_subscribed() {
    let mut cache: QueryCache<u32, u32> = QueryCache::new();

    cache.update_query_data(0_u32, |_| Some(1234), now());

    assert!(cache.invalidate_query(&0));
    let state = state(&cache, &0);

    assert!(matches!(state, Some(QueryState::Invalid { .. })), "Query should be invalid");
}

#[test]
fn query_client_can_invalidate_multiple() {
    let mut cache: QueryCache<u32, u32> = QueryCache::new();

    cache.update_query_data(0, |_| Some(1234), now());
    cache.update_query_data(1, |_| Some(1234), now());
    let keys: Vec<u32> = vec![0, 1];
    let invalidated = cache.invalidate_queries(keys.clone());

    assert_eq!(keys, invalidated)
}

#[test]
fn query_client_can_invalidate_multiple_strings() {
    let mut cache: QueryCache<String, String> = QueryCache::new();

    let zero = "0".to_string();
    let one = "1".to_string();

    cache.update_query_data(zero.clone(), |_| Some("1234".into()), now());
    cache.update_query_data(one.clone(), |_| Some("5678".into()), now());

    let keys = vec![zero, one];
    let invalidated = cache.invalidate_queries(keys.clone());

    assert_eq!(keys, invalidated)
}

#[test]
fn query_client_invalidate_all() {
    let mut strings: QueryCache<String, String> = QueryCache::new();
    let mut numbers: QueryCache<u32, u32> = QueryCache::new();

    let zero = "0".to_string();
    let one = "1".to_string();

    strings.update_query_data(zero.clone(), |_| Some("1234".into()), now());
    strings.update_query_data(one.clone(), |_| Some("5678".into()), now());
    numbers.update_query_data(0, |_| Some(1234), now());
    numbers.update_query_data(1, |_| Some(5678), now());

    // Invalidating everything invalidates every typed cache.
    strings.invalidate_all_queries();
    numbers.invalidate_all_queries();

    assert!(matches!(state(&numbers, &0), Some(QueryState::Invalid { .. })));
    assert!(matches!(state(&numbers, &1), Some(QueryState::Invalid { .. })));
    assert!(matches!(state(&strings, &zero), Some(QueryState::Invalid { .. })));
    assert!(matches!(state(&strings, &one), Some(QueryState::Invalid { .. })));
}

#[test]
fn query_client_can_invalidate_subset() {
    let mut cache: QueryCache<u32, u32> = QueryCache::new();

    cache.update_query_data(0, |_| Some(1234), now());
    cache.update_query_data(1, |_| Some(1234), now());

    cache.invalidate_all_queries();

    assert!(matches!(state(&cache, &0), Some(QueryState::Invalid { .. })));
    assert!(matches!(state(&cache, &1), Some(QueryState::Invalid { .. })));
}

#[test]
fn invalidate_queries_reports_each_key_once() {
    let mut cache: QueryCache<u32, u32> = QueryCache::new();
    cache.set_query_data(0, 10, now());
    cache.set_query_data(1, 11, now());
    cache.get_or_create_query(2);
    let invalidated = cache.invalidate_queries(vec![1, 7, 1, 2, 0]);
    assert_eq!(invalidated, vec![1, 0]);
    assert!(!cache.invalidate_query(&1));
    assert!(!cache.invalidate_query(&9));
}

#[test]
fn read_gives_back_what_was_set() {
    let mut cache: QueryCache<u32, String> = QueryCache::new();
    assert_eq!(cache.set_query_data(3, "three".to_string(), Instant(42)), SetResult::Inserted);
    let q = cache.get_query(&3).unwrap();
    assert_eq!(q.get_state().data(), Some(&"three".to_string()));
    assert_eq!(q.get_updated_at(), Some(Instant(42)));
    assert_eq!(cache.set_query_data(3, "trois".to_string(), Instant(43)), SetResult::Updated);
    assert_eq!(cache.get_query(&3).unwrap().get_state().data(), Some(&"trois".to_string()));
    assert_eq!(cache.size(), 1);
}

#[test]
fn update_sees_current_data_and_keeps_fetching() {
    let mut cache: QueryCache<u32, u32> = QueryCache::new();
    cache.set_query_data(1, 5, now());
    cache.get_query_mut(&1).unwrap().begin_execution(false);
    assert!(matches!(state(&cache, &1), Some(QueryState::Fetching(_))));
    let r = cache.update_query_data(1, |old| old.map(|v| v + 1), Instant(2_000));
    assert_eq!(r, SetResult::Updated);
    match state(&cache, &1) {
        Some(QueryState::Fetching(d)) => {
            assert_eq!(d.data, 6);
            assert_eq!(d.updated_at, Instant(2_000));
        }
        other => panic!("unexpected state {other:?}"),
    }
    cache.invalidate_query(&1);
    // An invalid query takes new data as loaded.
    cache.get_query_mut(&1).unwrap().finish_execution(false, None, now());
    assert!(cache.invalidate_query(&1));
    let r = cache.update_query_data(1, |old| old.map(|v| v * 10), now());
    assert_eq!(r, SetResult::Updated);
    assert!(matches!(state(&cache, &1), Some(QueryState::Loaded(ref d)) if d.data == 60));
}

#[test]
fn update_mut_only_touches_data() {
    let mut cache: QueryCache<u32, Vec<u32>> = QueryCache::new();
    assert!(!cache.update_query_data_mut(&1, |v| v.push(1)));
    cache.get_or_create_query(1);
    assert!(!cache.update_query_data_mut(&1, |v| v.push(1)));
    cache.set_query_data(1, vec![1], Instant(5));
    assert!(cache.update_query_data_mut(&1, |v| v.push(2)));
    match state(&cache, &1) {
        Some(QueryState::Loaded(d)) => {
            assert_eq!(d.data, vec![1, 2]);
            assert_eq!(d.updated_at, Instant(5));
        }
        other => panic!("unexpected state {other:?}"),
    }
}

#[test]
fn evict_and_cancel() {
    let mut cache: QueryCache<u32, u32> = QueryCache::new();
    assert!(cache.get_or_create_query(1));
    assert!(!cache.get_or_create_query(1));
    assert!(!cache.cancel_query(&1));
    cache.get_query_mut(&1).unwrap().begin_execution(false);
    assert!(cache.cancel_query(&1));
    assert!(!cache.cancel_query(&1));
    assert!(cache.evict_query(&1));
    assert!(!cache.evict_query(&1));
    assert_eq!(cache.size(), 0);
    assert!(!cache.contains_key(&1));
}

#[test]
fn tuple_keys_name_queries_by_both_parts() {
    let mut cache: QueryCache<(u32, String), u32> = QueryCache::new();
    cache.set_query_data((1, "a".to_string()), 1, now());
    cache.set_query_data((1, "b".to_string()), 2, now());
    cache.set_query_data((1, "a".to_string()), 3, now());
    assert_eq!(cache.size(), 2);
    assert_eq!(state(&cache, &(1, "a".to_string())).and_then(|s| s.data().cloned()), Some(3));
    assert_eq!(state(&cache, &(1, "b".to_string())).and_then(|s| s.data().cloned()), Some(2));
}

#[test]
fn eviction_waits_for_an_unused_query() {
    let mut cache: QueryCache<u32, String> = QueryCache::new();
    cache.set_query_data(1, "one".to_string(), now());
    // No countdown running: not evicted.
    assert!(!cache.evict_if_unused(&1));
    let q = cache.get_query_mut(&1).unwrap();
    q.update_gc_time(Some(10));
    assert_eq!(q.enable_gc(now()), Some(10));
    assert!(cache.get_query(&1).unwrap().is_evictable());
    assert!(cache.evict_if_unused(&1));
    assert_eq!(cache.size(), 0);
    assert!(!cache.evict_if_unused(&1));
}


#[test]
fn all_queries_lists_each_query_once() {
    let mut cache: QueryCache<u32, String> = QueryCache::new();
    cache.get_or_create_query(3);
    cache.get_or_create_query(1);
    cache.get_or_create_query(3);
    let keys: Vec<u32> = cache.all_queries().iter().map(|q| *q.get_key()).collect();
    assert_eq!(keys, vec![3, 1]);
}
