use leptos_query::{data_event, observer_move_events, ObserverUpdate, SetResult};
use leptos_query::{
    persist_action, CacheEvent, Instant, ObserverAdded, PersistAction, PersistQueryData, Query,
    QueryCacheKey, QueryData, QueryOptions, QueryState, SerializedQuery,
};

fn serialized(state: QueryState<String>) -> SerializedQuery {
    SerializedQuery { key: QueryCacheKey("7".to_string()), state }
}

#[test]
fn persister_stores_loaded_data_of_created_and_updated_queries() {
    let loaded = QueryState::Loaded(QueryData { data: "v".to_string(), updated_at: Instant(42) });
    let expected = PersistAction::Persist(
        "7".to_string(),
        PersistQueryData { value: "v".to_string(), updated_at: 42 },
    );
    assert_eq!(persist_action(CacheEvent::Created(serialized(loaded.clone()))), expected);
    assert_eq!(persist_action(CacheEvent::Updated(serialized(loaded))), expected);
}

#[test]
fn persister_ignores_other_states_and_events() {
    let fetching =
        QueryState::Fetching(QueryData { data: "v".to_string(), updated_at: Instant(42) });
    assert_eq!(persist_action(CacheEvent::Updated(serialized(fetching))), PersistAction::Ignore);
    assert_eq!(
        persist_action(CacheEvent::Created(serialized(QueryState::Loading))),
        PersistAction::Ignore
    );
    assert_eq!(
        persist_action(CacheEvent::ObserverRemoved(QueryCacheKey("7".to_string()))),
        PersistAction::Ignore
    );
    let added = ObserverAdded {
        key: QueryCacheKey("7".to_string()),
        options: QueryOptions::<String>::empty(),
    };
    assert_eq!(persist_action(CacheEvent::ObserverAdded(added)), PersistAction::Ignore);
}

#[test]
fn persister_drops_removed_queries() {
    assert_eq!(
        persist_action(CacheEvent::Removed(QueryCacheKey("7".to_string()))),
        PersistAction::Remove("7".to_string())
    );
}

#[test]
fn queries_serialize_key_and_data() {
    let mut query: Query<u32, u32> = Query::new(7);
    query.set_state(QueryState::Loaded(QueryData { data: 5, updated_at: Instant(3) }));
    let s = SerializedQuery::from_query(&query, |v: &u32| format!("<{v}>")).unwrap();
    assert_eq!(s.key, QueryCacheKey("7".to_string()));
    assert_eq!(
        s.state,
        QueryState::Loaded(QueryData { data: "<5>".to_string(), updated_at: Instant(3) })
    );
}

#[test]
fn storing_data_gives_created_or_updated_events() {
    let query = serialized(QueryState::Created);
    assert!(matches!(data_event(SetResult::Inserted, query.clone()), Some(CacheEvent::Created(_))));
    assert!(matches!(data_event(SetResult::Updated, query.clone()), Some(CacheEvent::Updated(_))));
    assert!(data_event(SetResult::Nothing, query).is_none());
}

#[test]
fn moving_observers_give_removed_and_added_events() {
    let added = ObserverAdded { key: QueryCacheKey("2".to_string()), options: QueryOptions::<String>::empty() };
    let moved = ObserverUpdate { changed: true, gc_delay: None, execute: false };
    let events = observer_move_events(moved, Some(QueryCacheKey("1".to_string())), Some(added.clone()));
    assert_eq!(events.len(), 2);
    assert!(matches!(&events[0], CacheEvent::ObserverRemoved(k) if k.0 == "1"));
    assert!(matches!(&events[1], CacheEvent::ObserverAdded(a) if a.key.0 == "2"));
    let stayed = ObserverUpdate { changed: false, gc_delay: None, execute: false };
    assert!(observer_move_events(stayed, Some(QueryCacheKey("1".to_string())), Some(added)).is_empty());
}
