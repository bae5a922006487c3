use std::fmt::Write;

use vstd::prelude::*;

use crate::query::Query;
use crate::query_options::QueryOptions;
use crate::query_cache::SetResult;
use crate::query_observer::ObserverUpdate;
use crate::query_persister::PersistQueryData;
use crate::query_state::QueryState;

verus! {

/// A serialized key for a query in the cache.
#[derive(Clone, Debug, PartialEq, Eq, Hash)]
pub struct QueryCacheKey(pub String);

impl QueryCacheKey {
    /// The serialized key of `key`: its debug representation, or `None` when
    /// the key's `Debug` impl reports an error.
    pub fn from_key<K: std::fmt::Debug>(key: &K) -> (r: Option<QueryCacheKey>) {
        match make_cache_key(key) {
            Some(text) => Some(QueryCacheKey(text)),
            None => None,
        }
    }
}

/// Serializes a key as its debug representation.
///
/// Writes `key` with the `{:?}` format into a new `String` through
/// `std::fmt::Write`, and hands back `None` when formatting reports an error.
/// What the text is depends on the key type's `Debug` impl, so nothing is
/// promised of it.
#[verifier::external_body]
pub(crate) fn make_cache_key<K: std::fmt::Debug>(key: &K) -> Option<String> {
    let mut text = String::new();
    match write!(text, "{key:?}") {
        Ok(()) => Some(text),
        Err(_) => None,
    }
}

/// A new observer has been added to a query.
#[derive(Clone, Debug)]
pub struct ObserverAdded {
    /// The key of the query.
    pub key: QueryCacheKey,
    /// The observer's options, with the default value serialized.
    pub options: QueryOptions<String>,
}

/// A query's key and state, with its data serialized.
#[derive(Clone, Debug)]
pub struct SerializedQuery {
    /// The serialized key of the query.
    pub key: QueryCacheKey,
    /// The state of the query, with its data serialized.
    pub state: QueryState<String>,
}

impl SerializedQuery {
    /// Serializes `query`, its data by `ser`; `None` when the key's `Debug`
    /// impl reports an error.
    pub fn from_query<K: std::fmt::Debug, V, F: Fn(&V) -> String>(
        query: &Query<K, V>,
        ser: F,
    ) -> (r: Option<SerializedQuery>)
        requires
            query.spec_state().spec_query_data() matches Some(d) ==> ser.requires((&d.data,)),
        ensures
            r matches Some(s) ==> {
                &&& query.spec_state().same_variant(s.state)
                &&& query.spec_state().spec_query_data() is None <==> s.state.spec_query_data() is None
                &&& query.spec_state().spec_query_data() matches Some(d) ==> (
                s.state.spec_query_data() matches Some(e) && e.updated_at == d.updated_at
                    && ser.ensures((&d.data,), e.data))
            },
    {
        match QueryCacheKey::from_key(query.get_key()) {
            Some(key) => Some(SerializedQuery { key, state: query.get_state().map_data(ser) }),
            None => None,
        }
    }
}

/// The events that can be observed from the query cache.
#[derive(Clone, Debug)]
pub enum CacheEvent {
    /// A new query that has become active in the cache.
    Created(SerializedQuery),
    /// A query that has been updated in the cache.
    Updated(SerializedQuery),
    /// A query that has been removed from the cache.
    Removed(QueryCacheKey),
    /// A new observer has been added to a query.
    ObserverAdded(ObserverAdded),
    /// An observer has been removed from a query.
    ObserverRemoved(QueryCacheKey),
}

/// The event that storing data for a query gives rise to: a query created
/// with the data is `Created`, an existing query that took it is `Updated`,
/// and an update that changed nothing gives no event.
pub fn data_event(result: SetResult, query: SerializedQuery) -> (r: Option<CacheEvent>)
    ensures
        result == SetResult::Inserted ==> r == Some(CacheEvent::Created(query)),
        result == SetResult::Updated ==> r == Some(CacheEvent::Updated(query)),
        result == SetResult::Nothing ==> r is None,
{
    match result {
        SetResult::Inserted => Some(CacheEvent::Created(query)),
        SetResult::Updated => Some(CacheEvent::Updated(query)),
        SetResult::Nothing => None,
    }
}

/// The events an observer that moved between queries gives rise to: it left
/// the query for `left`, if any, and joined the one `joined` describes, if
/// any. An observer that stayed gives no event.
pub fn observer_move_events(
    update: ObserverUpdate,
    left: Option<QueryCacheKey>,
    joined: Option<ObserverAdded>,
) -> (r: Vec<CacheEvent>)
    ensures
        !update.changed ==> r@.len() == 0,
        update.changed ==> r@ == match (left, joined) {
            (Some(k), Some(a)) => seq![CacheEvent::ObserverRemoved(k), CacheEvent::ObserverAdded(a)],
            (Some(k), None) => seq![CacheEvent::ObserverRemoved(k)],
            (None, Some(a)) => seq![CacheEvent::ObserverAdded(a)],
            (None, None) => Seq::<CacheEvent>::empty(),
        },
{
    let mut events: Vec<CacheEvent> = Vec::new();
    if update.changed {
        match left {
            Some(k) => events.push(CacheEvent::ObserverRemoved(k)),
            None => {},
        }
        match joined {
            Some(a) => events.push(CacheEvent::ObserverAdded(a)),
            None => {},
        }
    }
    proof {
        if update.changed {
            assert(events@ =~= match (left, joined) {
                (Some(k), Some(a)) => seq![CacheEvent::ObserverRemoved(k), CacheEvent::ObserverAdded(a)],
                (Some(k), None) => seq![CacheEvent::ObserverRemoved(k)],
                (None, Some(a)) => seq![CacheEvent::ObserverAdded(a)],
                (None, None) => Seq::<CacheEvent>::empty(),
            });
        }
    }
    events
}

/// What a persister does with a cache event.
#[derive(Clone, Debug, PartialEq, Eq)]
pub enum PersistAction {
    /// Store the data under the key.
    Persist(String, PersistQueryData),
    /// Remove what is stored under the key.
    Remove(String),
    /// Nothing to do.
    Ignore,
}

/// What a persister does with a serialized query: its loaded data is stored.
pub open spec fn spec_persist_query(query: SerializedQuery) -> PersistAction {
    match query.state {
        QueryState::Loaded(d) => PersistAction::Persist(
            query.key.0,
            PersistQueryData { value: d.data, updated_at: d.updated_at.0 },
        ),
        _ => PersistAction::Ignore,
    }
}

/// What a persister does with a cache event: created and updated queries
/// with loaded data are stored, removed queries are dropped from storage,
/// anything else is ignored.
pub open spec fn spec_persist_action(event: CacheEvent) -> PersistAction {
    match event {
        CacheEvent::Created(q) => spec_persist_query(q),
        CacheEvent::Updated(q) => spec_persist_query(q),
        CacheEvent::Removed(k) => PersistAction::Remove(k.0),
        _ => PersistAction::Ignore,
    }
}

/// A persister removes stored data only when its query is removed from the
/// cache, and stores only loaded data of a created or updated query, under
/// that query's key. An invalidated, loading or fetching query is left as it
/// is stored.
pub proof fn lemma_persister_removes_only_removed_queries(event: CacheEvent)
    ensures
        spec_persist_action(event) matches PersistAction::Remove(k) ==> (event matches CacheEvent::Removed(r)
            && r.0 == k),
        spec_persist_action(event) matches PersistAction::Persist(k, stored) ==> match event {
            CacheEvent::Created(q) | CacheEvent::Updated(q) => q.key.0 == k && (q.state matches QueryState::Loaded(d)
                && stored == PersistQueryData { value: d.data, updated_at: d.updated_at.0 }),
            _ => false,
        },
        event matches CacheEvent::Removed(r) ==> spec_persist_action(event) == PersistAction::Remove(r.0),
{
}

/// Decides what a persister does with a cache event.
pub fn persist_action(event: CacheEvent) -> (r: PersistAction)
    ensures
        r == spec_persist_action(event),
{
    match event {
        CacheEvent::Created(query) | CacheEvent::Updated(query) => {
            let SerializedQuery { key, state } = query;
            match PersistQueryData::from_state(state) {
                Some(data) => PersistAction::Persist(key.0, data),
                None => PersistAction::Ignore,
            }
        },
        CacheEvent::Removed(key) => PersistAction::Remove(key.0),
        _ => PersistAction::Ignore,
    }
}

} // verus!
