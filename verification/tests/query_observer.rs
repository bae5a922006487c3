use leptos_query::{
    GcTime, Instant, ObserverKey, QueryCache, QueryData, QueryObserver, QueryOptions, QueryState,
};

fn options(stale: Option<u64>, gc: Option<u64>) -> QueryOptions<String> {
    QueryOptions::empty().set_stale_time(stale).set_gc_time(gc)
}

#[test]
fn observer_with_fetcher_creates_and_subscribes() {
    let mut cache: QueryCache<u32, String> = QueryCache::new();
    let (observer, fetch) =
        QueryObserver::with_fetcher(ObserverKey(1), options(Some(100), Some(1_000)), &mut cache, 7, Instant(0));

    assert_eq!(observer.get_key(), Some(&7));
    assert_eq!(observer.get_id(), ObserverKey(1));
    assert!(observer.has_fetcher());
    // A new query has never been loaded, so it is to be fetched.
    assert!(fetch);
    let q = cache.get_query(&7).unwrap();
    assert_eq!(q.observer_count(), 1);
    assert!(q.has_fetcher());
    assert_eq!(q.get_gc().gc_time(), GcTime::After(1_000));
}

#[test]
fn observer_with_fetcher_reports_stale_data() {
    let mut cache: QueryCache<u32, String> = QueryCache::new();
    cache.set_query_data(7, "x".to_string(), Instant(0));

    let (_, stale) =
        QueryObserver::with_fetcher(ObserverKey(1), options(Some(100), None), &mut cache, 7, Instant(50));
    assert!(!stale);
    let (_, stale) =
        QueryObserver::with_fetcher(ObserverKey(2), options(Some(100), None), &mut cache, 7, Instant(100));
    assert!(stale);
    assert_eq!(cache.get_query(&7).unwrap().observer_count(), 2);
}

#[test]
fn observer_without_fetcher_needs_a_cached_query() {
    let mut cache: QueryCache<u32, String> = QueryCache::new();
    let observer = QueryObserver::no_fetcher(ObserverKey(3), options(None, None), &mut cache, Some(5));
    assert_eq!(observer.get_key(), None);
    assert_eq!(cache.size(), 0);

    cache.get_or_create_query(5);
    let observer = QueryObserver::no_fetcher(ObserverKey(3), options(None, None), &mut cache, Some(5));
    assert_eq!(observer.get_key(), Some(&5));
    let q = cache.get_query(&5).unwrap();
    assert_eq!(q.observer_count(), 1);
    assert!(!q.has_fetcher());
}

#[test]
fn observer_moves_between_queries() {
    let mut cache: QueryCache<u32, String> = QueryCache::new();
    cache.set_query_data(1, "one".to_string(), Instant(0));
    cache.get_or_create_query(2);

    let (mut observer, _) =
        QueryObserver::with_fetcher(ObserverKey(9), options(Some(10), Some(500)), &mut cache, 1, Instant(0));

    // Staying on the same query changes nothing.
    let same = observer.update_query(&mut cache, Some(1), Instant(0));
    assert!(!same.changed);
    assert_eq!(cache.get_query(&1).unwrap().observer_count(), 1);

    // Moving to query 2: query 1 loses its last observer and starts its
    // eviction countdown; query 2 was never loaded and is to be fetched.
    let moved = observer.update_query(&mut cache, Some(2), Instant(200));
    assert!(moved.changed);
    assert_eq!(moved.gc_delay, Some(300));
    assert!(moved.execute);
    assert_eq!(observer.get_key(), Some(&2));
    assert_eq!(cache.get_query(&1).unwrap().observer_count(), 0);
    assert!(cache.get_query(&1).unwrap().get_gc().timer_set());
    assert_eq!(cache.get_query(&2).unwrap().observer_count(), 1);

    // Moving to an uncached key leaves the observer without a query.
    let gone = observer.update_query(&mut cache, Some(42), Instant(200));
    assert!(gone.changed);
    assert!(!gone.execute);
    assert_eq!(gone.gc_delay, None);
    assert_eq!(observer.get_key(), None);
    assert_eq!(cache.get_query(&2).unwrap().observer_count(), 0);
}

#[test]
fn observer_without_fetcher_never_asks_for_a_fetch() {
    let mut cache: QueryCache<u32, String> = QueryCache::new();
    cache.get_or_create_query(1);
    let mut observer = QueryObserver::no_fetcher(ObserverKey(4), options(None, None), &mut cache, None);
    let update = observer.update_query(&mut cache, Some(1), Instant(0));
    assert!(update.changed);
    assert!(!update.execute);
}

#[test]
fn observer_cleanup_leaves_its_query() {
    let mut cache: QueryCache<u32, String> = QueryCache::new();
    cache.set_query_data(1, "one".to_string(), Instant(1_000));
    let (mut observer, _) =
        QueryObserver::with_fetcher(ObserverKey(5), options(None, Some(60_000)), &mut cache, 1, Instant(1_000));

    let delay = observer.cleanup(&mut cache, Instant(11_000));
    assert_eq!(delay, Some(50_000));
    assert_eq!(observer.get_key(), None);
    let q = cache.get_query(&1).unwrap();
    assert_eq!(q.observer_count(), 0);
    assert!(matches!(q.get_state(), QueryState::Loaded(QueryData { updated_at: Instant(1_000), .. })));

    // A second cleanup has nothing to leave.
    assert_eq!(observer.cleanup(&mut cache, Instant(11_000)), None);
}

#[test]
fn observing_then_leaving_restores_the_query() {
    let mut cache: QueryCache<u32, String> = QueryCache::new();
    cache.set_query_data(3, "three".to_string(), Instant(0));
    let (_first, _) =
        QueryObserver::with_fetcher(ObserverKey(1), options(Some(10), Some(100)), &mut cache, 3, Instant(0));
    let before = cache.get_query(&3).unwrap().clone();

    let (mut second, _) =
        QueryObserver::with_fetcher(ObserverKey(2), options(Some(5), Some(50)), &mut cache, 3, Instant(1));
    assert_eq!(cache.get_query(&3).unwrap().observer_count(), 2);
    assert_eq!(second.cleanup(&mut cache, Instant(2)), None);

    let after = cache.get_query(&3).unwrap();
    assert_eq!(cache.size(), 1);
    assert_eq!(after.observer_count(), before.observer_count());
    assert_eq!(after.stale_time(), before.stale_time());
    assert_eq!(after.get_state(), before.get_state());
    assert_eq!(after.is_executing(), before.is_executing());
}
