use leptos_query::{
    CacheEvent, DevtoolsState, Instant, ObserverAdded, QueryCacheKey, QueryData, QueryOptions,
    QueryState, SerializedQuery, SortOption,
};

fn key(k: &str) -> QueryCacheKey {
    QueryCacheKey(k.to_string())
}

fn created(k: &str) -> CacheEvent {
    CacheEvent::Created(SerializedQuery { key: key(k), state: QueryState::Created })
}

fn observer(k: &str, stale: Option<u64>, gc: Option<u64>) -> CacheEvent {
    CacheEvent::ObserverAdded(ObserverAdded {
        key: key(k),
        options: QueryOptions::<String>::empty().set_stale_time(stale).set_gc_time(gc),
    })
}

#[test]
fn devtools_track_created_updated_and_removed_queries() {
    let mut tools = DevtoolsState::new();
    tools.process_cache_event(created("1"));
    tools.process_cache_event(created("2"));
    assert_eq!(tools.len(), 2);

    let loaded = QueryState::Loaded(QueryData { data: "x".to_string(), updated_at: Instant(5) });
    tools.process_cache_event(CacheEvent::Updated(SerializedQuery { key: key("1"), state: loaded.clone() }));
    assert_eq!(tools.get(&key("1")).unwrap().state, loaded);

    // An update of an unknown query is dropped.
    tools.process_cache_event(CacheEvent::Updated(SerializedQuery { key: key("9"), state: loaded }));
    assert!(tools.get(&key("9")).is_none());

    tools.process_cache_event(CacheEvent::Removed(key("2")));
    assert_eq!(tools.len(), 1);
    assert!(tools.get(&key("2")).is_none());
}

#[test]
fn devtools_gather_observer_times() {
    let mut tools = DevtoolsState::new();
    tools.process_cache_event(created("q"));
    tools.process_cache_event(observer("q", Some(100), Some(1_000)));
    tools.process_cache_event(observer("q", Some(50), Some(500)));
    tools.process_cache_event(observer("q", None, Some(2_000)));
    let entry = tools.get(&key("q")).unwrap();
    assert_eq!(entry.observer_count, 3);
    assert_eq!(entry.stale_time, Some(50));
    assert_eq!(entry.gc_time, Some(2_000));

    tools.process_cache_event(CacheEvent::ObserverRemoved(key("q")));
    assert_eq!(tools.get(&key("q")).unwrap().observer_count, 2);

    // Creating the query again starts its entry afresh.
    tools.process_cache_event(created("q"));
    let entry = tools.get(&key("q")).unwrap();
    assert_eq!(entry.observer_count, 0);
    assert_eq!(entry.stale_time, None);
    assert_eq!(tools.len(), 1);
}

#[test]
fn devtools_entry_goes_stale() {
    let mut tools = DevtoolsState::new();
    tools.process_cache_event(CacheEvent::Created(SerializedQuery {
        key: key("s"),
        state: QueryState::Loaded(QueryData { data: "x".to_string(), updated_at: Instant(1_000) }),
    }));
    assert!(!tools.get(&key("s")).unwrap().is_stale_at(Instant(5_000)), "no stale time yet");
    tools.process_cache_event(observer("s", Some(200), None));
    let entry = tools.get(&key("s")).unwrap();
    assert!(!entry.is_stale_at(Instant(1_199)));
    assert!(entry.is_stale_at(Instant(1_200)));
}

fn loaded_at(k: &str, t: u64) -> CacheEvent {
    CacheEvent::Created(SerializedQuery {
        key: key(k),
        state: QueryState::Loaded(QueryData { data: "v".to_string(), updated_at: Instant(t) }),
    })
}

fn keys(list: Vec<QueryCacheKey>) -> Vec<String> {
    list.into_iter().map(|k| k.0).collect()
}

#[test]
fn devtools_list_filters_without_regard_to_case() {
    let mut tools = DevtoolsState::new();
    tools.process_cache_event(loaded_at("\"Todos\"", 3));
    tools.process_cache_event(loaded_at("\"users\"", 1));
    tools.process_cache_event(loaded_at("\"TODO-2\"", 2));
    let listed = keys(tools.list("todo", SortOption::Ascii, true, Instant(10)));
    assert_eq!(listed, vec!["\"TODO-2\"".to_string(), "\"Todos\"".to_string()]);
    assert_eq!(keys(tools.list("", SortOption::Ascii, true, Instant(10))).len(), 3);
    assert!(tools.list("zzz", SortOption::Time, true, Instant(10)).is_empty());
}

#[test]
fn devtools_list_sorts_by_time_and_reverses() {
    let mut tools = DevtoolsState::new();
    tools.process_cache_event(loaded_at("a", 30));
    tools.process_cache_event(loaded_at("b", 10));
    tools.process_cache_event(created("c"));
    // A query without data counts as updated now.
    assert_eq!(keys(tools.list("", SortOption::Time, true, Instant(20))), vec!["b", "c", "a"]);
    assert_eq!(keys(tools.list("", SortOption::Time, false, Instant(20))), vec!["a", "c", "b"]);
    assert_eq!(keys(tools.list("", SortOption::Ascii, false, Instant(20))), vec!["c", "b", "a"]);
}
