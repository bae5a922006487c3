use leptos_query::util::time_until_stale;
use leptos_query::{
    create_query, next_id, Instant, ObserverEntry, ObserverKey, PersistQueryData,
    Query, QueryCache, QueryCacheKey, QueryData, QueryOptions, QueryState,
};

#[test]
fn fetch_lifecycle() {
    let mut q: Query<u32, String> = Query::new(7);
    assert_eq!(*q.get_key(), 7);
    assert!(q.needs_execute(Instant(0)));
    assert_eq!(q.begin_execution(true), None, "suppressed loads do nothing");
    assert_eq!(q.begin_execution(false), Some(true));
    assert!(q.is_executing());
    assert!(matches!(q.get_state(), QueryState::Loading));
    assert_eq!(q.begin_execution(false), None, "a fetch in flight is not duplicated");
    q.finish_execution(true, Some("seven".to_string()), Instant(100));
    assert!(!q.is_executing());
    assert_eq!(q.get_state().data(), Some(&"seven".to_string()));
    assert_eq!(q.get_updated_at(), Some(Instant(100)));

    // Refetch, then cancel: the old data comes back as loaded.
    assert_eq!(q.begin_execution(false), Some(false));
    assert!(matches!(q.get_state(), QueryState::Fetching(_)));
    assert!(q.cancel());
    q.finish_execution(false, None, Instant(200));
    assert!(matches!(q.get_state(), QueryState::Loaded(d) if d.updated_at == Instant(100)));

    // A cancelled first load goes back to created.
    let mut fresh: Query<u32, String> = Query::new(8);
    fresh.begin_execution(false);
    fresh.finish_execution(true, None, Instant(5));
    assert!(matches!(fresh.get_state(), QueryState::Created));
}

#[test]
fn staleness_uses_the_minimum_stale_time() {
    let mut q: Query<u32, u32> = Query::new(1);
    let slow = ObserverEntry::new(ObserverKey(1), &QueryOptions::<u32>::stale_time(1_000), true);
    let fast = ObserverEntry::new(ObserverKey(2), &QueryOptions::<u32>::stale_time(100), false);
    assert!(q.subscribe(slow));
    assert!(q.subscribe(fast));
    assert!(!q.subscribe(fast), "an observer subscribes once");
    assert_eq!(q.observer_count(), 2);
    assert_eq!(q.stale_time(), Some(100));
    assert!(q.has_fetcher());

    assert!(!q.is_stale(Instant(0)), "no data, never stale");
    q.set_state(QueryState::Loaded(QueryData { data: 1, updated_at: Instant(1_000) }));
    assert!(!q.is_stale(Instant(1_099)));
    assert!(q.is_stale(Instant(1_100)));
    assert!(!q.needs_execute(Instant(1_050)));
    assert!(q.needs_execute(Instant(1_100)));

    let (removed, delay) = q.unsubscribe(ObserverKey(2), Instant(1_050));
    assert!(removed);
    assert_eq!(delay, None, "an observer is left");
    assert_eq!(q.stale_time(), Some(1_000));
    assert!(!q.is_stale(Instant(1_100)));

    // The last observer leaves: eviction is scheduled gc_time after the update.
    let (removed, delay) = q.unsubscribe(ObserverKey(1), Instant(1_200));
    assert!(removed);
    assert_eq!(delay, Some(300_000 - 200));
    let (removed, _) = q.unsubscribe(ObserverKey(1), Instant(1_200));
    assert!(!removed);
    assert!(q.get_gc().timer_set());
    assert!(q.disable_gc());
}

#[test]
fn set_state_and_mark_invalid() {
    let mut q: Query<u32, u32> = Query::new(1);
    assert!(!q.mark_invalid());
    let invalid = q.set_state(QueryState::Invalid(QueryData { data: 3, updated_at: Instant(9) }));
    assert!(invalid, "an invalid state asks for a refetch");
    assert!(!q.mark_invalid());
    assert!(!q.set_state(QueryState::Loaded(QueryData { data: 3, updated_at: Instant(9) })));
    assert!(q.mark_invalid());
    assert!(!q.mark_invalid(), "invalidating twice changes nothing");
    assert!(q.needs_execute(Instant(0)));
}

#[test]
fn observer_ids_count_up() {
    let mut counter = 1;
    assert_eq!(next_id(&mut counter), ObserverKey(1));
    assert_eq!(next_id(&mut counter), ObserverKey(2));
    assert_eq!(counter, 3);
}

#[test]
fn state_accessors() {
    let s: QueryState<u32> = QueryState::Fetching(QueryData { data: 2, updated_at: Instant(3) });
    assert_eq!(s.data(), Some(&2));
    assert_eq!(s.updated_at(), Some(Instant(3)));
    let m = s.map_data(|v| v.to_string());
    assert_eq!(m, QueryState::Fetching(QueryData { data: "2".to_string(), updated_at: Instant(3) }));
    let c: QueryState<u32> = QueryState::default();
    assert_eq!(c, QueryState::Created);
    assert_eq!(c.data(), None);
    assert_eq!(QueryState::<u32>::Loading.updated_at(), None);
}

#[test]
fn query_data_is_stamped_with_the_given_time() {
    let d = QueryData::now(5u8, Instant(1_234));
    assert_eq!(d.data, 5);
    assert_eq!(d.updated_at, Instant(1_234));
}

#[test]
fn time_until_stale_counts_down() {
    assert_eq!(time_until_stale(Instant(1_000), 500, Instant(1_200)), 300);
    assert_eq!(time_until_stale(Instant(1_000), 500, Instant(1_500)), 0);
    assert_eq!(time_until_stale(Instant(1_000), 500, Instant(9_000)), 0);
    assert_eq!(time_until_stale(Instant(u64::MAX), u64::MAX, Instant(0)), u64::MAX);
}

#[test]
fn cache_keys_are_debug_strings() {
    assert_eq!(QueryCacheKey::from_key(&5u32), Some(QueryCacheKey("5".to_string())));
    assert_eq!(QueryCacheKey::from_key(&"a".to_string()), Some(QueryCacheKey("\"a\"".to_string())));
    assert_eq!(QueryCacheKey::from_key(&(1, 2)), Some(QueryCacheKey("(1, 2)".to_string())));
}

struct BrokenDebug;

impl std::fmt::Debug for BrokenDebug {
    fn fmt(&self, _: &mut std::fmt::Formatter<'_>) -> std::fmt::Result {
        Err(std::fmt::Error)
    }
}

#[test]
fn cache_key_of_a_failing_debug_impl_is_none() {
    assert_eq!(QueryCacheKey::from_key(&BrokenDebug), None);
}

#[test]
fn persisted_data_is_only_loaded_data() {
    let loaded = QueryState::Loaded(QueryData { data: "x".to_string(), updated_at: Instant(8) });
    assert_eq!(
        PersistQueryData::from_state(loaded),
        Some(PersistQueryData { value: "x".to_string(), updated_at: 8 })
    );
    let invalid = QueryState::Invalid(QueryData { data: "x".to_string(), updated_at: Instant(8) });
    assert_eq!(PersistQueryData::from_state(invalid), None);
    assert_eq!(PersistQueryData::from_state(QueryState::Created), None);
}

#[test]
fn scope_manages_its_cache() {
    let scope = create_query(|k: u32| k * 2, QueryOptions::<u32>::stale_time(5));
    assert_eq!(scope.get_options().stale_time, Some(5));
    assert_eq!((scope.make_fetcher())(4), 8);

    let mut cache: QueryCache<u32, u32> = QueryCache::new();
    assert_eq!(scope.invalidate_queries(None, vec![1]), None);
    scope.set_query_data(&mut cache, 1, 10, Instant(1));
    assert_eq!(cache.get_query(&1).unwrap().get_state().data(), Some(&10));
    scope.update_query_data(&mut cache, 1, |v| v.map(|v| v + 1), Instant(2));
    assert_eq!(cache.get_query(&1).unwrap().get_updated_at(), Some(Instant(2)));
    assert_eq!(cache.get_query(&1).unwrap().get_state().data(), Some(&11));
    assert!(scope.update_query_data_mut(&mut cache, &1, |v| *v += 1));
    assert_eq!(cache.get_query(&1).unwrap().get_state().data(), Some(&12));
    assert!(scope.invalidate_query(&mut cache, &1));
    assert!(!scope.invalidate_query(&mut cache, &1));
    scope.set_query_data(&mut cache, 2, 20, Instant(3));
    assert_eq!(scope.invalidate_queries(Some(&mut cache), vec![2, 1]), Some(vec![2]));
    assert_eq!(scope.invalidate_queries(Some(&mut cache), vec![2, 9]), None, "nothing invalidated");
    scope.set_query_data(&mut cache, 3, 30, Instant(4));
    scope.invalidate_all_queries(&mut cache);
    assert!(matches!(cache.get_query(&3).unwrap().get_state(), QueryState::Invalid(_)));
    assert!(!scope.cancel_query(&mut cache, &3));
}

#[test]
fn subscribe_then_unsubscribe_restores_observers() {
    let mut q: Query<u32, u32> = Query::new(1);
    let first = ObserverEntry::new(ObserverKey(1), &QueryOptions::<u32>::stale_time(50), true);
    let passing = ObserverEntry::new(ObserverKey(2), &QueryOptions::<u32>::stale_time(5), false);
    q.subscribe(first);
    q.set_state(QueryState::Loaded(QueryData { data: 3, updated_at: Instant(10) }));
    let before = q.clone();

    assert!(q.subscribe(passing));
    assert_eq!(q.stale_time(), Some(5));
    let (removed, delay) = q.unsubscribe(ObserverKey(2), Instant(20));
    assert!(removed);
    assert_eq!(delay, None);

    assert_eq!(q.observer_count(), before.observer_count());
    assert_eq!(q.stale_time(), before.stale_time());
    assert_eq!(q.get_state(), before.get_state());
    assert_eq!(q.get_key(), before.get_key());
    assert_eq!(q.is_executing(), before.is_executing());
}

#[test]
fn data_mut_changes_data_in_place() {
    let mut state = QueryState::Invalid(QueryData { data: 1u32, updated_at: Instant(4) });
    *state.data_mut().unwrap() += 5;
    assert_eq!(state, QueryState::Invalid(QueryData { data: 6, updated_at: Instant(4) }));
    let mut loading: QueryState<u32> = QueryState::Loading;
    assert!(loading.data_mut().is_none());
    assert_eq!(loading, QueryState::Loading);
}

#[test]
fn update_data_mut_applies_the_updater_once() {
    let mut q: Query<u32, Vec<u32>> = Query::new(1);
    assert!(!q.update_data_mut(|v| v.push(1)));
    q.set_state(QueryState::Fetching(QueryData { data: vec![7], updated_at: Instant(9) }));
    assert!(q.update_data_mut(|v| v.push(8)));
    assert_eq!(
        q.get_state(),
        &QueryState::Fetching(QueryData { data: vec![7, 8], updated_at: Instant(9) })
    );
}

#[test]
fn scope_peeks_cached_state() {
    let scope = create_query(|k: u32| k, QueryOptions::<u32>::empty());
    let mut cache: QueryCache<u32, u32> = QueryCache::new();
    assert_eq!(scope.peek_query_state(&cache, &1), None);
    cache.get_or_create_query(1);
    assert_eq!(scope.peek_query_state(&cache, &1), Some(&QueryState::Created));
}

#[test]
fn loading_fetching_and_invalid_flags() {
    let data = QueryData { data: 1u32, updated_at: Instant(0) };
    let loading: QueryState<u32> = QueryState::Loading;
    assert!(loading.is_loading() && loading.is_fetching() && !loading.is_invalid());
    let fetching = QueryState::Fetching(data.clone());
    assert!(!fetching.is_loading() && fetching.is_fetching());
    let invalid = QueryState::Invalid(data.clone());
    assert!(invalid.is_invalid() && !invalid.is_fetching());
    let loaded = QueryState::Loaded(data);
    assert!(!loaded.is_loading() && !loaded.is_fetching() && !loaded.is_invalid());
}

#[test]
fn invalidated_query_is_due_whatever_its_stale_time() {
    let mut q: Query<u32, u32> = Query::new(1);
    q.subscribe(ObserverEntry::new(ObserverKey(1), &QueryOptions::<u32>::stale_time(1_000_000), true));
    q.set_state(QueryState::Loaded(QueryData { data: 1, updated_at: Instant(100) }));
    assert!(!q.needs_execute(Instant(200)));
    assert!(q.mark_invalid());
    assert!(q.needs_execute(Instant(200)));
}

#[test]
fn data_or_falls_back_to_the_default_value() {
    let default_value = Some(9u32);
    let loaded = QueryState::Loaded(QueryData { data: 1u32, updated_at: Instant(0) });
    assert_eq!(loaded.data_or(&default_value), Some(&1));
    assert_eq!(QueryState::<u32>::Loading.data_or(&default_value), Some(&9));
    assert_eq!(QueryState::<u32>::Created.data_or(&None), None);
}

#[test]
fn invalidated_query_in_use_is_refetched_at_once() {
    let mut q: Query<u32, u32> = Query::new(1);
    q.set_state(QueryState::Loaded(QueryData { data: 1, updated_at: Instant(0) }));
    q.subscribe(ObserverEntry::new(ObserverKey(1), &QueryOptions::<u32>::empty(), false));
    q.mark_invalid();
    assert!(!q.refetch_now(), "no observer can fetch");
    q.subscribe(ObserverEntry::new(ObserverKey(2), &QueryOptions::<u32>::empty(), true));
    assert!(q.refetch_now());
}
